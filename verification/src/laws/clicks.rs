//! What keys and buttons do, to the windows and to the clients.

use vstd::prelude::*;

use crate::geometry::Place;
use crate::ieee::format::Float;
use crate::input::{
    overlay_button, overlay_told, region_of, window_under, FloraInputEvent, MouseButton,
};
use crate::laws::desktop::law_window_under_is_topmost;
use crate::state::{Desktop, Screen};
use crate::window::{HitRegion, Window};

verus! {

/// The window at an index is hit, and none above it.
pub open spec fn topmost_hit(windows: Seq<Window>, pointer: Place, scale: Float, index: int) -> bool {
    &&& 0 <= index < windows.len()
    &&& region_of(windows[index], pointer, scale) != HitRegion::Outside
    &&& forall|above: int|
        index < above < windows.len() ==> region_of(#[trigger] windows[above], pointer, scale)
            == HitRegion::Outside
}

/// No window is hit.
pub open spec fn nothing_hit(windows: Seq<Window>, pointer: Place, scale: Float) -> bool {
    forall|i: int|
        0 <= i < windows.len() ==> region_of(#[trigger] windows[i], pointer, scale)
            == HitRegion::Outside
}

proof fn lemma_topmost_hit(windows: Seq<Window>, pointer: Place, scale: Float, index: int)
    requires
        topmost_hit(windows, pointer, scale, index),
    ensures
        window_under(windows, pointer, scale) == Some(index),
{
    law_window_under_is_topmost(windows, pointer, scale);
    match window_under(windows, pointer, scale) {
        Some(found) => {
            if found < index {
                assert(region_of(windows[index], pointer, scale) == HitRegion::Outside);
            } else if index < found {
                assert(region_of(windows[found], pointer, scale) == HitRegion::Outside);
            }
        },
        None => {
            assert(region_of(windows[index], pointer, scale) == HitRegion::Outside);
        },
    }
}

/// A key is handed on, once, as it came: its code, whether it was pressed or
/// released, and its time. Nothing else happens but that a frame is asked for.
pub proof fn law_key_is_handed_on(
    desktop: Desktop,
    keycode: u32,
    pressed: bool,
    time: u32,
    serial: u32,
    overlay_wants_pointer: bool,
)
    ensures
        ({
            let event = FloraInputEvent::Keyboard { keycode, pressed, time };
            let deeds = desktop.event_deeds(event, serial, overlay_wants_pointer);
            let after = desktop.after_event(event, overlay_wants_pointer);
            &&& deeds.len() == 1
            &&& deeds[0] is KeyboardInput
            &&& deeds[0]->KeyboardInput_keycode == keycode
            &&& deeds[0]->KeyboardInput_pressed == pressed
            &&& deeds[0]->KeyboardInput_serial == serial
            &&& deeds[0]->KeyboardInput_time == time
            &&& after == (Desktop { needs_redraw: true, ..desktop })
        }),
{
}

/// A release is told from a press, and one key from another.
pub proof fn law_keys_are_told_apart(
    desktop: Desktop,
    key: (u32, bool, u32),
    other: (u32, bool, u32),
    serial: u32,
    overlay_wants_pointer: bool,
)
    requires
        key != other,
    ensures
        desktop.event_deeds(
            FloraInputEvent::Keyboard { keycode: key.0, pressed: key.1, time: key.2 },
            serial,
            overlay_wants_pointer,
        )[0] != desktop.event_deeds(
            FloraInputEvent::Keyboard { keycode: other.0, pressed: other.1, time: other.2 },
            serial,
            overlay_wants_pointer,
        )[0],
{
}

/// A press on a window, on its bar or on its client area, gives that window the
/// keyboard: first the focus goes to the surface of the topmost window hit,
/// which is the topmost of all afterwards, then the button is handed on as it
/// came. No other surface gets the focus.
pub proof fn law_press_focuses_the_window_it_raises(
    desktop: Desktop,
    button: u32,
    time: u32,
    serial: u32,
    index: int,
)
    requires
        topmost_hit(desktop.windows, desktop.pointer, desktop.scale(), index),
    ensures
        ({
            let event = FloraInputEvent::PointerButton { button, pressed: true, time };
            let deeds = desktop.event_deeds(event, serial, false);
            let after = desktop.after_event(event, false);
            &&& after.windows.len() == desktop.windows.len()
            &&& after.windows.last() == desktop.windows[index]
            &&& deeds.len() == 2
            &&& deeds[0] is FocusKeyboard
            &&& deeds[0]->FocusKeyboard_surface == after.windows.last().surface
            &&& deeds[0]->FocusKeyboard_surface == desktop.windows[index].surface
            &&& deeds[0]->FocusKeyboard_serial == serial
            &&& deeds[1] is PointerButton
            &&& deeds[1]->PointerButton_button == button
            &&& deeds[1]->PointerButton_pressed
            &&& deeds[1]->PointerButton_serial == serial
            &&& deeds[1]->PointerButton_time == time
            &&& forall|i: int|
                0 <= i < deeds.len() && (#[trigger] deeds[i]) is FocusKeyboard ==> i == 0
        }),
{
    lemma_topmost_hit(desktop.windows, desktop.pointer, desktop.scale(), index);
}

/// A press raises the topmost window hit over all others, which keep their
/// order, and moves or resizes none. On the bar it takes hold of the window, by
/// the place where the pointer is in it; on the client area it takes hold of
/// none.
pub proof fn law_press_restacks_the_windows(desktop: Desktop, button: u32, time: u32, index: int)
    requires
        topmost_hit(desktop.windows, desktop.pointer, desktop.scale(), index),
    ensures
        ({
            let event = FloraInputEvent::PointerButton { button, pressed: true, time };
            let after = desktop.after_event(event, false);
            let top = desktop.windows.len() - 1;
            let region = region_of(desktop.windows[index], desktop.pointer, desktop.scale());
            &&& after.windows.len() == desktop.windows.len()
            &&& after.windows[top] == desktop.windows[index]
            &&& forall|i: int|
                0 <= i < index ==> #[trigger] after.windows[i] == desktop.windows[i]
            &&& forall|i: int|
                index <= i < top ==> #[trigger] after.windows[i] == desktop.windows[i + 1]
            &&& region == HitRegion::TitleBar ==> after.grab == Some(
                (top, desktop.pointer.minus(Place::of(desktop.windows[index].location))),
            )
            &&& region != HitRegion::TitleBar ==> after.grab == desktop.grab
            &&& after == (Desktop {
                windows: after.windows,
                grab: after.grab,
                needs_redraw: true,
                ..desktop
            })
        }),
{
    lemma_topmost_hit(desktop.windows, desktop.pointer, desktop.scale(), index);
}

/// A press beside all windows is only handed on: nothing is raised, focused or
/// taken hold of.
pub proof fn law_press_beside_windows_is_only_handed_on(
    desktop: Desktop,
    button: u32,
    time: u32,
    serial: u32,
)
    requires
        nothing_hit(desktop.windows, desktop.pointer, desktop.scale()),
    ensures
        ({
            let event = FloraInputEvent::PointerButton { button, pressed: true, time };
            let deeds = desktop.event_deeds(event, serial, false);
            &&& desktop.after_event(event, false) == (Desktop { needs_redraw: true, ..desktop })
            &&& deeds.len() == 1
            &&& deeds[0] is PointerButton
            &&& deeds[0]->PointerButton_button == button
            &&& deeds[0]->PointerButton_pressed
            &&& deeds[0]->PointerButton_serial == serial
            &&& deeds[0]->PointerButton_time == time
        }),
{
    law_window_under_is_topmost(desktop.windows, desktop.pointer, desktop.scale());
}

/// A release is handed on as a release, lets go of the window that was held,
/// and leaves the windows, the focus and the pointer alone.
pub proof fn law_release_lets_go(desktop: Desktop, button: u32, time: u32, serial: u32)
    ensures
        ({
            let event = FloraInputEvent::PointerButton { button, pressed: false, time };
            let deeds = desktop.event_deeds(event, serial, false);
            &&& desktop.after_event(event, false) == (Desktop {
                grab: None,
                needs_redraw: true,
                ..desktop
            })
            &&& deeds.len() == 1
            &&& deeds[0] is PointerButton
            &&& deeds[0]->PointerButton_button == button
            &&& !deeds[0]->PointerButton_pressed
            &&& deeds[0]->PointerButton_serial == serial
            &&& deeds[0]->PointerButton_time == time
        }),
{
}

/// A button that the overlay wants stays with it: nothing reaches a client, and
/// nothing changes but that a frame is asked for.
pub proof fn law_overlay_keeps_its_buttons(
    desktop: Desktop,
    button: u32,
    pressed: bool,
    time: u32,
    serial: u32,
)
    ensures
        ({
            let event = FloraInputEvent::PointerButton { button, pressed, time };
            &&& desktop.event_deeds(event, serial, true).len() == 0
            &&& desktop.after_event(event, true) == (Desktop { needs_redraw: true, ..desktop })
        }),
{
}

/// Handling a button at a scale is handling its event on an output of that scale.
pub proof fn law_button_at_a_scale(
    desktop: Desktop,
    screen: Screen,
    button: u32,
    pressed: bool,
    time: u32,
    serial: u32,
    overlay_wants_pointer: bool,
)
    requires
        desktop.output == Some(screen),
    ensures
        ({
            let other = Desktop { output: None, ..desktop };
            let event = FloraInputEvent::PointerButton { button, pressed, time };
            let handled = other.after_button(pressed, screen.scale, overlay_wants_pointer);
            let after = desktop.after_event(event, overlay_wants_pointer);
            &&& after == (Desktop {
                output: Some(screen),
                needs_redraw: true,
                ..handled
            })
            &&& handled.output is None
            &&& handled.needs_redraw == (desktop.needs_redraw || overlay_wants_pointer)
            &&& other.button_deeds(
                button,
                pressed,
                time,
                screen.scale,
                serial,
                overlay_wants_pointer,
            ) == desktop.event_deeds(event, serial, overlay_wants_pointer)
        }),
{
}

/// The overlay is told of the left, the right and the middle button, each by
/// the code after the one before, pressed or released as it was, and of no
/// other button and no other event.
pub proof fn law_overlay_knows_three_buttons(button: u32, pressed: bool, time: u32)
    ensures
        overlay_button(0x110) == Some(MouseButton::Left),
        overlay_button(0x111) == Some(MouseButton::Right),
        overlay_button(0x112) == Some(MouseButton::Middle),
        overlay_button(button) is Some <==> 0x110 <= button <= 0x112,
        ({
            let told = overlay_told(FloraInputEvent::PointerButton { button, pressed, time });
            &&& told is Some <==> 0x110 <= button <= 0x112
            &&& match told {
                Some((name, down)) => overlay_button(button) == Some(name) && down == pressed,
                None => true,
            }
        }),
{
}

/// Events that are not of a button are none of the overlay's buttons.
pub proof fn law_overlay_is_told_of_buttons_only(event: FloraInputEvent)
    requires
        !(event is PointerButton),
    ensures
        overlay_told(event) is None,
{
}

} // verus!
