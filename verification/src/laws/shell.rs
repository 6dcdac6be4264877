//! What clients get when they ask.

use vstd::prelude::*;

use crate::shell::{
    granted_mode, text_input_change, CursorImage, DecorationMode, ShellEffect, TextInputChange,
};
use crate::state::Desktop;

verus! {

/// A new window opens a hundred pixels from the corner, with the size that its
/// client is proposed, over all other windows, which stay as they are; nothing
/// else changes but that a frame is asked for.
pub proof fn law_new_window_opens(desktop: Desktop, surface: u64, serial: u32)
    ensures
        ({
            let after = desktop.with_new_window(surface);
            let window = after.windows.last();
            let effects = desktop.new_window_effects(surface, serial);
            &&& after.windows.len() == desktop.windows.len() + 1
            &&& forall|i: int|
                0 <= i < desktop.windows.len() ==> #[trigger] after.windows[i] == desktop.windows[i]
            &&& window.surface == surface
            &&& window.location.x == 100
            &&& window.location.y == 100
            &&& effects[0] == (ShellEffect::Configure { surface, size: window.client_size() })
            &&& window.client_size().w == 800
            &&& window.client_size().h == 600
            &&& after == (Desktop { windows: after.windows, needs_redraw: true, ..desktop })
        }),
{
}

/// The client of a new window is proposed a size, gets the keyboard, and is told
/// of the output if there is one, each once and in this order, and no other
/// surface is named.
pub proof fn law_new_window_is_introduced(desktop: Desktop, surface: u64, serial: u32)
    ensures
        ({
            let effects = desktop.new_window_effects(surface, serial);
            &&& effects.len() == if desktop.output is Some {
                3nat
            } else {
                2
            }
            &&& effects[0] is Configure
            &&& effects[0]->Configure_surface == surface
            &&& effects[1] is FocusKeyboard
            &&& effects[1]->FocusKeyboard_surface == surface
            &&& effects[1]->FocusKeyboard_serial == serial
            &&& desktop.output is Some ==> effects[2] == (ShellEffect::EnterOutput { surface })
        }),
{
}

/// The last surface that a client gave is the cursor until it is hidden; a
/// cursor by name leaves it. Every image asks for a frame, and changes nothing
/// else.
pub proof fn law_cursor_is_what_was_asked_for(desktop: Desktop, surface: u64, image: CursorImage)
    ensures
        desktop.with_cursor(CursorImage::Surface(surface)).cursor_surface == Some(surface),
        desktop.with_cursor(CursorImage::Hidden).cursor_surface is None,
        desktop.with_cursor(CursorImage::Named).cursor_surface == desktop.cursor_surface,
        desktop.with_cursor(image) == (Desktop {
            cursor_surface: desktop.with_cursor(image).cursor_surface,
            needs_redraw: true,
            ..desktop
        }),
{
}

/// The text input is in exactly the surface that has the keyboard focus.
pub proof fn law_text_input_follows_the_focus(focused: Option<u64>, surface: u64)
    ensures
        text_input_change(focused) == (TextInputChange::Enter { surface }) <==> focused == Some(
            surface,
        ),
        text_input_change(focused) is Leave <==> focused is None,
{
}

/// A wish for a decoration mode is granted; without one the compositor
/// decorates.
pub proof fn law_decoration_wishes_are_granted(mode: DecorationMode)
    ensures
        granted_mode(Some(mode)) == mode,
        granted_mode(None) == granted_mode(Some(DecorationMode::ServerSide)),
{
}

} // verus!
