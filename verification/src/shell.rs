//! Requests of clients: new windows, cursors, focus, decorations.

use vstd::prelude::*;

use crate::geometry::{Point, Size};
use crate::state::{Desktop, FloraState};
use crate::window::{default_size, Window};

verus! {

/// What is to be done about a new window, in order.
#[derive(Debug, Clone, Copy, PartialEq, Eq, Structural)]
pub enum ShellEffect {
    /// Propose a size to the client.
    Configure { surface: u64, size: Size },
    /// Give the keyboard focus to the surface.
    FocusKeyboard { surface: u64, serial: u32 },
    /// Tell the client that its surface is on the output.
    EnterOutput { surface: u64 },
}

/// A cursor image as a client asks for it.
#[derive(Debug, Clone, Copy, PartialEq, Eq, Structural)]
pub enum CursorImage {
    Hidden,
    Named,
    Surface(u64),
}

/// What the text input of the seat is told when the focus changes.
#[derive(Debug, Clone, Copy, PartialEq, Eq, Structural)]
pub enum TextInputChange {
    Enter { surface: u64 },
    Leave,
}

/// Who draws the decorations of a window.
#[derive(Debug, Clone, Copy, PartialEq, Eq, Structural)]
pub enum DecorationMode {
    ClientSide,
    ServerSide,
}

impl Desktop {
    /// A new window opens on top, at a fixed place.
    pub open spec fn with_new_window(self, surface: u64) -> Desktop {
        Desktop {
            windows: self.windows.push(
                Window { surface, location: Point { x: 100, y: 100 }, size: None },
            ),
            needs_redraw: true,
            ..self
        }
    }

    /// The surface of the cursor becomes the given one or none; a named cursor
    /// leaves it.
    pub open spec fn with_cursor(self, image: CursorImage) -> Desktop {
        Desktop {
            cursor_surface: match image {
                CursorImage::Surface(surface) => Some(surface),
                CursorImage::Hidden => None,
                CursorImage::Named => self.cursor_surface,
            },
            needs_redraw: true,
            ..self
        }
    }

    pub open spec fn new_window_effects(self, surface: u64, serial: u32) -> Seq<ShellEffect> {
        let always = seq![
            ShellEffect::Configure { surface, size: default_size() },
            ShellEffect::FocusKeyboard { surface, serial },
        ];
        if self.output is Some {
            always.push(ShellEffect::EnterOutput { surface })
        } else {
            always
        }
    }
}

impl FloraState {
    /// Takes in a new window.
    pub fn new_toplevel(&mut self, surface: u64, serial: u32) -> (r: Vec<ShellEffect>)
        ensures
            final(self)@ == old(self)@.with_new_window(surface),
            r@ == old(self)@.new_window_effects(surface, serial),
    {
        let mut effects: Vec<ShellEffect> = Vec::new();
        effects.push(ShellEffect::Configure { surface, size: Size { w: 800, h: 600 } });
        self.windows.push(Window { surface, location: Point { x: 100, y: 100 }, size: None });
        effects.push(ShellEffect::FocusKeyboard { surface, serial });
        if self.output.is_some() {
            effects.push(ShellEffect::EnterOutput { surface });
        }
        self.needs_redraw = true;
        effects
    }

    /// Takes in new contents of a surface.
    pub fn commit(&mut self)
        ensures
            final(self)@ == (Desktop { needs_redraw: true, ..old(self)@ }),
    {
        self.needs_redraw = true;
    }

    /// Takes in a cursor image.
    pub fn cursor_image(&mut self, image: CursorImage)
        ensures
            final(self)@ == old(self)@.with_cursor(image),
    {
        match image {
            CursorImage::Surface(surface) => {
                self.cursor_surface = Some(surface);
            },
            CursorImage::Hidden => {
                self.cursor_surface = None;
            },
            CursorImage::Named => {},
        }
        self.needs_redraw = true;
    }
}

/// The text input enters the surface that has the keyboard focus.
pub open spec fn text_input_change(focused: Option<u64>) -> TextInputChange {
    match focused {
        Some(surface) => TextInputChange::Enter { surface },
        None => TextInputChange::Leave,
    }
}

/// The text input follows the keyboard focus.
pub fn focus_changed(focused: Option<u64>) -> (r: TextInputChange)
    ensures
        r == text_input_change(focused),
{
    match focused {
        Some(surface) => TextInputChange::Enter { surface },
        None => TextInputChange::Leave,
    }
}

/// The decoration mode that a client gets.
pub open spec fn granted_mode(requested: Option<DecorationMode>) -> DecorationMode {
    match requested {
        Some(mode) => mode,
        None => DecorationMode::ServerSide,
    }
}

/// A client gets the decoration mode it asks for; without a wish the
/// compositor decorates.
pub fn decoration_mode(requested: Option<DecorationMode>) -> (r: DecorationMode)
    ensures
        r == granted_mode(requested),
{
    requested.unwrap_or(DecorationMode::ServerSide)
}

} // verus!
