//! Input events and what they do to the desktop.

use vstd::prelude::*;

use crate::geometry::{double, Place, Point, PointF, Size};
use crate::ieee::arith::product;
use crate::ieee::bits::F64;
use crate::ieee::convert::truncated;
use crate::ieee::format::{Float, Format};
use crate::ieee::order::less;
use crate::state::{get_output_scale, Desktop, FloraState};
use crate::window::{hit_region, hit_test_window, testable, HitRegion, Window, TITLE_BAR_HEIGHT};

verus! {

/// An input event in physical coordinates. An absolute location is given as a
/// share of the output, from zero to one on each axis.
#[derive(Debug, Clone, Copy)]
pub enum FloraInputEvent {
    Keyboard { keycode: u32, pressed: bool, time: u32 },
    PointerMotion { delta: PointF, time: u32 },
    PointerMotionAbsolute { location: PointF, time: u32 },
    PointerButton { button: u32, pressed: bool, time: u32 },
}

/// A button that the overlay knows.
#[derive(Debug, Clone, Copy, PartialEq, Eq, Structural)]
pub enum MouseButton {
    Left,
    Right,
    Middle,
}

/// The surface under the pointer, and the place on it.
#[derive(Debug, Clone, Copy, PartialEq, Eq, Structural)]
pub struct PointerFocus {
    pub surface: u64,
    pub local: Point,
}

/// What is to be done outside the state, in order.
#[derive(Debug, Clone, Copy)]
pub enum Effect {
    /// Hand a key to the keyboard of the seat.
    KeyboardInput { keycode: u32, pressed: bool, serial: u32, time: u32 },
    /// Tell the overlay where the pointer is, in logical coordinates.
    OverlayMotion { at: Point },
    /// Move the pointer of the seat, in logical coordinates.
    PointerMotion { under: Option<PointerFocus>, location: PointF, serial: u32, time: u32 },
    /// Give the keyboard focus to a surface.
    FocusKeyboard { surface: u64, serial: u32 },
    /// Hand a button to the pointer of the seat.
    PointerButton { button: u32, pressed: bool, serial: u32, time: u32 },
}

/// What an `Effect` stands for.
pub enum Deed {
    KeyboardInput { keycode: u32, pressed: bool, serial: u32, time: u32 },
    OverlayMotion { at: Point },
    PointerMotion { under: Option<PointerFocus>, location: Place, serial: u32, time: u32 },
    FocusKeyboard { surface: u64, serial: u32 },
    PointerButton { button: u32, pressed: bool, serial: u32, time: u32 },
}

impl View for Effect {
    type V = Deed;

    open spec fn view(&self) -> Deed {
        match *self {
            Effect::KeyboardInput { keycode, pressed, serial, time } => Deed::KeyboardInput {
                keycode,
                pressed,
                serial,
                time,
            },
            Effect::OverlayMotion { at } => Deed::OverlayMotion { at },
            Effect::PointerMotion { under, location, serial, time } => Deed::PointerMotion {
                under,
                location: location@,
                serial,
                time,
            },
            Effect::FocusKeyboard { surface, serial } => Deed::FocusKeyboard { surface, serial },
            Effect::PointerButton { button, pressed, serial, time } => Deed::PointerButton {
                button,
                pressed,
                serial,
                time,
            },
        }
    }
}

pub open spec fn deeds(effects: Seq<Effect>) -> Seq<Deed> {
    effects.map_values(|effect: Effect| effect@)
}

/// A coordinate brought into `[0, limit]`; not-a-number becomes zero.
pub open spec fn clamped(a: Float, limit: i32) -> Float {
    let raised = if a is NotANumber || less(a, double(0)) {
        double(0)
    } else {
        a
    };
    if less(double(limit as int), raised) {
        double(limit as int)
    } else {
        raised
    }
}

fn clamp(a: F64, limit: i32) -> (r: F64)
    ensures
        r@ == clamped(a@, limit),
{
    let zero: F64 = F64::from_i32(0);
    let most: F64 = F64::from_i32(limit);
    let raised: F64 = if !a.is_equal(a) || a.is_less(zero) {
        zero
    } else {
        a
    };
    if most.is_less(raised) {
        most
    } else {
        raised
    }
}

/// What of a window lies under a pointer given in physical coordinates.
pub open spec fn region_of(window: Window, pointer: Place, scale: Float) -> HitRegion {
    hit_region(
        pointer.to_logical(scale),
        Place::of(window.location).to_logical(scale),
        window.client_size(),
    )
}

/// Index of the topmost window whose bar or client area is under the pointer.
pub open spec fn window_under(windows: Seq<Window>, pointer: Place, scale: Float) -> Option<int>
    decreases windows.len(),
{
    if windows.len() == 0 {
        None
    } else if region_of(windows.last(), pointer, scale) != HitRegion::Outside {
        Some(windows.len() - 1)
    } else {
        window_under(windows.drop_last(), pointer, scale)
    }
}

/// The topmost client area under the pointer; bars are passed over.
pub open spec fn client_under(
    windows: Seq<Window>,
    pointer: Place,
    scale: Float,
) -> Option<PointerFocus>
    decreases windows.len(),
{
    if windows.len() == 0 {
        None
    } else {
        match region_of(windows.last(), pointer, scale) {
            HitRegion::Client { local_x, local_y } => Some(
                PointerFocus {
                    surface: windows.last().surface,
                    local: Point { x: local_x, y: local_y },
                },
            ),
            _ => client_under(windows.drop_last(), pointer, scale),
        }
    }
}

/// A window has a height, as far as finding what of it is under the pointer
/// needs one.
pub open spec fn region_testable(window: Window, pointer: Place, scale: Float) -> bool {
    testable(
        pointer.to_logical(scale),
        Place::of(window.location).to_logical(scale),
        window.client_size(),
    )
}

/// The windows that are looked at to find the one under the pointer, down to
/// the one that is found, can be tested.
pub open spec fn windows_testable(windows: Seq<Window>, pointer: Place, scale: Float) -> bool
    decreases windows.len(),
{
    windows.len() > 0 ==> {
        &&& region_testable(windows.last(), pointer, scale)
        &&& region_of(windows.last(), pointer, scale) == HitRegion::Outside ==> windows_testable(
            windows.drop_last(),
            pointer,
            scale,
        )
    }
}

/// The windows that are looked at to find the client area under the pointer,
/// down to the one that is found, can be tested.
pub open spec fn clients_testable(windows: Seq<Window>, pointer: Place, scale: Float) -> bool
    decreases windows.len(),
{
    windows.len() > 0 ==> {
        &&& region_testable(windows.last(), pointer, scale)
        &&& !(region_of(windows.last(), pointer, scale) is Client) ==> clients_testable(
            windows.drop_last(),
            pointer,
            scale,
        )
    }
}

/// The windows with one of them brought to the top.
pub open spec fn brought_to_top(windows: Seq<Window>, index: int) -> Seq<Window> {
    windows.remove(index).push(windows[index])
}

impl Desktop {
    /// The pointer brought back onto the output.
    pub open spec fn with_clamped_pointer(self) -> Desktop {
        match self.mode() {
            Some(size) => Desktop {
                pointer: Place {
                    x: clamped(self.pointer.x, size.w),
                    y: clamped(self.pointer.y, size.h),
                },
                ..self
            },
            None => self,
        }
    }

    /// The dragged window moved along with the pointer.
    pub open spec fn with_dragged_window(self) -> Desktop {
        match self.grab {
            Some((index, offset)) => if 0 <= index < self.windows.len() {
                Desktop {
                    windows: self.windows.update(
                        index,
                        Window {
                            location: self.pointer.minus(offset).rounded(),
                            ..self.windows[index]
                        },
                    ),
                    ..self
                }
            } else {
                self
            },
            None => self,
        }
    }

    /// The pointer moved to a place that may be off the output.
    pub open spec fn with_pointer_moved(self, to: Place) -> Desktop {
        Desktop {
            needs_redraw: true,
            ..(Desktop { pointer: to, ..self }).with_clamped_pointer().with_dragged_window()
        }
    }

    /// Where an absolute motion leads, before clamping.
    pub open spec fn absolute_target(self, location: Place) -> Place {
        match self.mode() {
            Some(size) => Place {
                x: product(Format::Binary64, location.x, double(size.w as int)),
                y: product(Format::Binary64, location.y, double(size.h as int)),
            },
            None => self.pointer,
        }
    }

    /// Where the overlay is told the pointer is.
    pub open spec fn overlay_location(self, scale: Float) -> Point {
        let logical = self.pointer.to_logical(scale);
        Point {
            x: truncated(Format::Binary64, logical.x),
            y: truncated(Format::Binary64, logical.y),
        }
    }

    /// What is done after the pointer has moved.
    pub open spec fn motion_deeds(self, serial: u32, time: u32) -> Seq<Deed> {
        seq![
            Deed::OverlayMotion { at: self.overlay_location(self.scale()) },
            Deed::PointerMotion {
                under: client_under(self.windows, self.pointer, self.scale()),
                location: self.pointer.to_logical(self.scale()),
                serial,
                time,
            },
        ]
    }

    /// A press that the overlay leaves to the windows: the topmost window under
    /// the pointer comes to the top, and is dragged from now on if it was hit
    /// on its bar.
    pub open spec fn pressed(self, scale: Float) -> Desktop {
        match window_under(self.windows, self.pointer, scale) {
            Some(index) => Desktop {
                windows: brought_to_top(self.windows, index),
                grab: if region_of(self.windows[index], self.pointer, scale)
                    == HitRegion::TitleBar {
                    Some(
                        (
                            self.windows.len() - 1,
                            self.pointer.minus(Place::of(self.windows[index].location)),
                        ),
                    )
                } else {
                    self.grab
                },
                ..self
            },
            None => self,
        }
    }

    /// A button of the pointer.
    pub open spec fn after_button(
        self,
        pressed: bool,
        scale: Float,
        overlay_wants_pointer: bool,
    ) -> Desktop {
        if overlay_wants_pointer {
            Desktop { needs_redraw: true, ..self }
        } else if pressed {
            self.pressed(scale)
        } else {
            Desktop { grab: None, ..self }
        }
    }

    pub open spec fn button_deeds(
        self,
        button: u32,
        pressed: bool,
        time: u32,
        scale: Float,
        serial: u32,
        overlay_wants_pointer: bool,
    ) -> Seq<Deed> {
        let forwarded = Deed::PointerButton { button, pressed, serial, time };
        if overlay_wants_pointer {
            Seq::empty()
        } else if !pressed {
            seq![forwarded]
        } else {
            match window_under(self.windows, self.pointer, scale) {
                Some(index) => seq![
                    Deed::FocusKeyboard { surface: self.windows[index].surface, serial },
                    forwarded,
                ],
                None => seq![forwarded],
            }
        }
    }

    /// An input event.
    pub open spec fn after_event(
        self,
        event: FloraInputEvent,
        overlay_wants_pointer: bool,
    ) -> Desktop {
        match event {
            FloraInputEvent::Keyboard { .. } => Desktop { needs_redraw: true, ..self },
            FloraInputEvent::PointerMotion { delta, time } => self.with_pointer_moved(
                self.pointer.plus(delta@),
            ),
            FloraInputEvent::PointerMotionAbsolute { location, time } => self.with_pointer_moved(
                self.absolute_target(location@),
            ),
            FloraInputEvent::PointerButton { button, pressed, time } => Desktop {
                needs_redraw: true,
                ..self.after_button(pressed, self.scale(), overlay_wants_pointer)
            },
        }
    }

    /// The windows that a button leads to can be tested.
    pub open spec fn admits_button(
        self,
        pressed: bool,
        scale: Float,
        overlay_wants_pointer: bool,
    ) -> bool {
        pressed && !overlay_wants_pointer ==> windows_testable(self.windows, self.pointer, scale)
    }

    /// The windows that an input event leads to can be tested.
    pub open spec fn admits(self, event: FloraInputEvent, overlay_wants_pointer: bool) -> bool {
        match event {
            FloraInputEvent::Keyboard { .. } => true,
            FloraInputEvent::PointerButton { button, pressed, time } => self.admits_button(
                pressed,
                self.scale(),
                overlay_wants_pointer,
            ),
            _ => {
                let after = self.after_event(event, overlay_wants_pointer);
                clients_testable(after.windows, after.pointer, self.scale())
            },
        }
    }

    /// What is done about an input event.
    pub open spec fn event_deeds(
        self,
        event: FloraInputEvent,
        serial: u32,
        overlay_wants_pointer: bool,
    ) -> Seq<Deed> {
        match event {
            FloraInputEvent::Keyboard { keycode, pressed, time } => seq![
                Deed::KeyboardInput { keycode, pressed, serial, time },
            ],
            FloraInputEvent::PointerMotion { delta, time } => self.after_event(
                event,
                overlay_wants_pointer,
            ).motion_deeds(serial, time),
            FloraInputEvent::PointerMotionAbsolute { location, time } => self.after_event(
                event,
                overlay_wants_pointer,
            ).motion_deeds(serial, time),
            FloraInputEvent::PointerButton { button, pressed, time } => self.button_deeds(
                button,
                pressed,
                time,
                self.scale(),
                serial,
                overlay_wants_pointer,
            ),
        }
    }
}

/// Brings the pointer back onto the output.
pub fn clamp_pointer(state: &mut FloraState)
    ensures
        final(state)@ == old(state)@.with_clamped_pointer(),
{
    if let Some(size) = state.output_mode() {
        state.pointer_location = PointF {
            x: clamp(state.pointer_location.x, size.w),
            y: clamp(state.pointer_location.y, size.h),
        };
    }
}

/// Moves the dragged window along with the pointer.
pub fn update_grab(state: &mut FloraState)
    ensures
        final(state)@ == old(state)@.with_dragged_window(),
{
    if let Some((index, offset)) = state.grab_state {
        if index < state.windows.len() {
            let location: Point = state.pointer_location.minus(offset).rounded();
            let window: Window = state.windows[index];
            state.windows.set(index, Window { location, ..window });
        }
    }
}

/// Where the overlay is to be told that the pointer is.
pub fn forward_pointer_to_egui(state: &FloraState, scale: F64) -> (r: Point)
    ensures
        r == state@.overlay_location(scale@),
{
    let logical: PointF = state.pointer_location.to_logical(scale);
    Point { x: logical.x.truncate(), y: logical.y.truncate() }
}

fn region_under(window: &Window, pointer_logical: PointF, scale: F64, pointer: Ghost<Place>) -> (r:
    HitRegion)
    requires
        region_testable(*window, pointer@, scale@),
        pointer_logical@ == pointer@.to_logical(scale@),
    ensures
        r == region_of(*window, pointer@, scale@),
{
    let location: PointF = PointF::from_point(window.location).to_logical(scale);
    hit_test_window(pointer_logical, location, window.surface_size())
}

/// Forwards the place of the pointer to the seat, with the client area it is
/// over.
pub fn forward_pointer_motion(state: &FloraState, time: u32, scale: F64, serial: u32) -> (r: Effect)
    requires
        clients_testable(state@.windows, state@.pointer, scale@),
    ensures
        r@ == (Deed::PointerMotion {
            under: client_under(state@.windows, state@.pointer, scale@),
            location: state@.pointer.to_logical(scale@),
            serial,
            time,
        }),
{
    let pointer_logical: PointF = state.pointer_location.to_logical(scale);
    let ghost windows = state.windows@;
    let ghost pointer = state@.pointer;
    let mut under: Option<PointerFocus> = None;
    let mut i: usize = state.windows.len();
    proof {
        assert(windows.take(i as int) =~= windows);
    }
    while i > 0 && under.is_none()
        invariant
            i <= state.windows@.len(),
            windows == state.windows@,
            pointer == state@.pointer,
            pointer_logical@ == pointer.to_logical(scale@),
            under is None ==> clients_testable(windows.take(i as int), pointer, scale@),
            under is None ==> client_under(windows, pointer, scale@) == client_under(
                windows.take(i as int),
                pointer,
                scale@,
            ),
            under is Some ==> client_under(windows, pointer, scale@) == under,
        decreases i,
    {
        i = i - 1;
        proof {
            assert(windows.take(i + 1).last() == windows[i as int]);
            assert(windows.take(i + 1).drop_last() =~= windows.take(i as int));
        }
        let region: HitRegion = region_under(&state.windows[i], pointer_logical, scale, Ghost(pointer));
        if let HitRegion::Client { local_x, local_y } = region {
            under = Some(
                PointerFocus {
                    surface: state.windows[i].surface,
                    local: Point { x: local_x, y: local_y },
                },
            );
        }
    }
    Effect::PointerMotion { under, location: pointer_logical, serial, time }
}

/// The overlay's name of a button code.
pub open spec fn overlay_button(button: u32) -> Option<MouseButton> {
    if button == 0x110 {
        Some(MouseButton::Left)
    } else if button == 0x111 {
        Some(MouseButton::Right)
    } else if button == 0x112 {
        Some(MouseButton::Middle)
    } else {
        None
    }
}

/// What the overlay is told of an event: a button that it knows, and whether it
/// was pressed.
pub open spec fn overlay_told(event: FloraInputEvent) -> Option<(MouseButton, bool)> {
    match event {
        FloraInputEvent::PointerButton { button, pressed, time } => match overlay_button(button) {
            Some(name) => Some((name, pressed)),
            None => None,
        },
        _ => None,
    }
}

/// What the overlay is to be told of an event before the windows are.
pub fn overlay_input(event: &FloraInputEvent) -> (r: Option<(MouseButton, bool)>)
    ensures
        r == overlay_told(*event),
{
    match *event {
        FloraInputEvent::PointerButton { button, pressed, time } => match button {
            0x110 => Some((MouseButton::Left, pressed)),
            0x111 => Some((MouseButton::Right, pressed)),
            0x112 => Some((MouseButton::Middle, pressed)),
            _ => None,
        },
        _ => None,
    }
}

/// Finds the topmost window under the pointer.
fn find_window(state: &FloraState, scale: F64) -> (r: Option<(usize, HitRegion)>)
    requires
        windows_testable(state@.windows, state@.pointer, scale@),
    ensures
        match r {
            Some((index, region)) => {
                &&& window_under(state@.windows, state@.pointer, scale@) == Some(index as int)
                &&& index < state@.windows.len()
                &&& region == region_of(state@.windows[index as int], state@.pointer, scale@)
            },
            None => window_under(state@.windows, state@.pointer, scale@) is None,
        },
{
    let pointer_logical: PointF = state.pointer_location.to_logical(scale);
    let ghost windows = state.windows@;
    let ghost pointer = state@.pointer;
    let mut i: usize = state.windows.len();
    proof {
        assert(windows.take(i as int) =~= windows);
    }
    while i > 0
        invariant
            i <= state.windows@.len(),
            windows == state.windows@,
            pointer == state@.pointer,
            pointer_logical@ == pointer.to_logical(scale@),
            windows_testable(windows.take(i as int), pointer, scale@),
            window_under(windows, pointer, scale@) == window_under(
                windows.take(i as int),
                pointer,
                scale@,
            ),
        decreases i,
    {
        i = i - 1;
        proof {
            assert(windows.take(i + 1).last() == windows[i as int]);
            assert(windows.take(i + 1).drop_last() =~= windows.take(i as int));
        }
        let region: HitRegion = region_under(&state.windows[i], pointer_logical, scale, Ghost(pointer));
        if region != HitRegion::Outside {
            return Some((i, region));
        }
    }
    None
}

/// Handles a button of the pointer, after the overlay has been told of it and
/// has said whether it wants the pointer.
pub fn handle_pointer_button(
    state: &mut FloraState,
    button: u32,
    pressed: bool,
    time: u32,
    scale: F64,
    serial: u32,
    overlay_wants_pointer: bool,
) -> (r: Vec<Effect>)
    requires
        old(state)@.admits_button(pressed, scale@, overlay_wants_pointer),
    ensures
        final(state)@ == old(state)@.after_button(pressed, scale@, overlay_wants_pointer),
        deeds(r@) == old(state)@.button_deeds(
            button,
            pressed,
            time,
            scale@,
            serial,
            overlay_wants_pointer,
        ),
{
    let mut effects: Vec<Effect> = Vec::new();
    if overlay_wants_pointer {
        state.needs_redraw = true;
        assert(deeds(effects@) =~= Seq::empty());
        return effects;
    }
    if pressed {
        if let Some((index, region)) = find_window(state, scale) {
            let window: Window = state.windows[index];
            let offset: PointF = state.pointer_location.minus(PointF::from_point(window.location));
            effects.push(Effect::FocusKeyboard { surface: window.surface, serial });
            let raised: Window = state.windows.remove(index);
            state.windows.push(raised);
            if region == HitRegion::TitleBar {
                state.grab_state = Some((state.windows.len() - 1, offset));
            }
        }
    } else {
        state.grab_state = None;
    }
    effects.push(Effect::PointerButton { button, pressed, serial, time });
    assert(deeds(effects@) =~= old(state)@.button_deeds(
        button,
        pressed,
        time,
        scale@,
        serial,
        overlay_wants_pointer,
    ));
    effects
}

/// Tells the overlay and the seat where the pointer is.
fn tell_motion(state: &FloraState, time: u32, scale: F64, serial: u32) -> (r: Vec<Effect>)
    requires
        scale@ == state@.scale(),
        clients_testable(state@.windows, state@.pointer, scale@),
    ensures
        deeds(r@) == state@.motion_deeds(serial, time),
{
    let overlay: Point = forward_pointer_to_egui(state, scale);
    let motion: Effect = forward_pointer_motion(state, time, scale, serial);
    let mut effects: Vec<Effect> = Vec::new();
    effects.push(Effect::OverlayMotion { at: overlay });
    effects.push(motion);
    assert(deeds(effects@) =~= state@.motion_deeds(serial, time));
    effects
}

/// Follows the pointer after it has moved.
#[verifier::spinoff_prover]
fn follow_pointer(state: &mut FloraState, time: u32, scale: F64, serial: u32) -> (r: Vec<Effect>)
    requires
        scale@ == old(state)@.scale(),
        ({
            let moved = old(state)@.with_pointer_moved(old(state)@.pointer);
            clients_testable(moved.windows, moved.pointer, scale@)
        }),
    ensures
        final(state)@ == old(state)@.with_pointer_moved(old(state)@.pointer),
        deeds(r@) == final(state)@.motion_deeds(serial, time),
{
    let ghost moved = state@.with_pointer_moved(state@.pointer);
    clamp_pointer(state);
    update_grab(state);
    state.needs_redraw = true;
    assert(state@ == moved);
    tell_motion(state, time, scale, serial)
}

/// Whether a window has a height, as far as finding what of it is under the
/// pointer needs one.
fn is_testable(window: &Window, pointer: PointF, scale: F64) -> (r: bool)
    ensures
        r == region_testable(*window, pointer@, scale@),
{
    let relative: PointF = pointer.to_logical(scale).minus(
        PointF::from_point(window.location).to_logical(scale),
    );
    let size: Size = window.surface_size();
    let reaches: bool = F64::from_i32(0).is_at_most(relative.x) && relative.x.is_less(
        F64::from_i32(size.w),
    ) && F64::from_i32(TITLE_BAR_HEIGHT).is_at_most(relative.y);
    !reaches || size.h <= i32::MAX - TITLE_BAR_HEIGHT
}

/// Whether the windows down to the one under the pointer can be tested; with
/// `clients_only`, down to the one whose client area is.
fn are_testable(windows: &Vec<Window>, pointer: PointF, scale: F64, clients_only: bool) -> (r: bool)
    ensures
        r == if clients_only {
            clients_testable(windows@, pointer@, scale@)
        } else {
            windows_testable(windows@, pointer@, scale@)
        },
{
    let pointer_logical: PointF = pointer.to_logical(scale);
    let mut i: usize = windows.len();
    proof {
        assert(windows@.take(i as int) =~= windows@);
    }
    while i > 0
        invariant
            i <= windows@.len(),
            pointer_logical@ == pointer@.to_logical(scale@),
            clients_only ==> clients_testable(windows@, pointer@, scale@) == clients_testable(
                windows@.take(i as int),
                pointer@,
                scale@,
            ),
            !clients_only ==> windows_testable(windows@, pointer@, scale@) == windows_testable(
                windows@.take(i as int),
                pointer@,
                scale@,
            ),
        decreases i,
    {
        i = i - 1;
        proof {
            assert(windows@.take(i + 1).last() == windows@[i as int]);
            assert(windows@.take(i + 1).drop_last() =~= windows@.take(i as int));
        }
        if !is_testable(&windows[i], pointer, scale) {
            return false;
        }
        let found: bool = match region_under(&windows[i], pointer_logical, scale, Ghost(pointer@)) {
            HitRegion::Client { local_x: _, local_y: _ } => true,
            HitRegion::TitleBar => !clients_only,
            HitRegion::Outside => false,
        };
        if found {
            return true;
        }
    }
    true
}

/// Whether the windows that a motion of the pointer leads to can be tested.
fn admits_motion(state: &FloraState, target: PointF) -> (r: bool)
    ensures
        r == {
            let after = state@.with_pointer_moved(target@);
            clients_testable(after.windows, after.pointer, state@.scale())
        },
{
    let mut windows: Vec<Window> = Vec::new();
    let mut i: usize = 0;
    while i < state.windows.len()
        invariant
            i <= state.windows@.len(),
            windows@ == state.windows@.take(i as int),
        decreases state.windows@.len() - i,
    {
        windows.push(state.windows[i]);
        i = i + 1;
        assert(windows@ =~= state.windows@.take(i as int));
    }
    assert(windows@ =~= state.windows@);
    let mut moved = FloraState::new();
    moved.output = state.output;
    moved.windows = windows;
    moved.pointer_location = target;
    moved.grab_state = state.grab_state;
    clamp_pointer(&mut moved);
    update_grab(&mut moved);
    are_testable(&moved.windows, moved.pointer_location, get_output_scale(state), true)
}

/// Whether an input event can be handled: no window that it leads to is too
/// high to be tested.
pub fn is_admitted(state: &FloraState, event: &FloraInputEvent, overlay_wants_pointer: bool) -> (r:
    bool)
    ensures
        r == state@.admits(*event, overlay_wants_pointer),
{
    match *event {
        FloraInputEvent::Keyboard { keycode: _, pressed: _, time: _ } => true,
        FloraInputEvent::PointerMotion { delta, time: _ } => admits_motion(
            state,
            state.pointer_location.plus(delta),
        ),
        FloraInputEvent::PointerMotionAbsolute { location, time: _ } => {
            let target: PointF = match state.output_mode() {
                Some(size) => PointF {
                    x: location.x.times(F64::from_i32(size.w)),
                    y: location.y.times(F64::from_i32(size.h)),
                },
                None => state.pointer_location,
            };
            admits_motion(state, target)
        },
        FloraInputEvent::PointerButton { button: _, pressed, time: _ } => !pressed
            || overlay_wants_pointer || are_testable(
            &state.windows,
            state.pointer_location,
            get_output_scale(state),
            false,
        ),
    }
}

/// Handles an input event. `overlay_wants_pointer` is what the overlay says
/// once it has been told of the event.
pub fn handle_input_event(
    state: &mut FloraState,
    event: FloraInputEvent,
    serial: u32,
    overlay_wants_pointer: bool,
) -> (r: Vec<Effect>)
    requires
        old(state)@.admits(event, overlay_wants_pointer),
    ensures
        final(state)@ == old(state)@.after_event(event, overlay_wants_pointer),
        deeds(r@) == old(state)@.event_deeds(event, serial, overlay_wants_pointer),
{
    let scale: F64 = get_output_scale(state);
    match event {
        FloraInputEvent::Keyboard { keycode, pressed, time } => {
            let mut effects: Vec<Effect> = Vec::new();
            effects.push(Effect::KeyboardInput { keycode, pressed, serial, time });
            state.needs_redraw = true;
            assert(deeds(effects@) =~= old(state)@.event_deeds(event, serial, overlay_wants_pointer));
            effects
        },
        FloraInputEvent::PointerMotion { delta, time } => {
            state.pointer_location = state.pointer_location.plus(delta);
            follow_pointer(state, time, scale, serial)
        },
        FloraInputEvent::PointerMotionAbsolute { location, time } => {
            if let Some(size) = state.output_mode() {
                state.pointer_location = PointF {
                    x: location.x.times(F64::from_i32(size.w)),
                    y: location.y.times(F64::from_i32(size.h)),
                };
            }
            follow_pointer(state, time, scale, serial)
        },
        FloraInputEvent::PointerButton { button, pressed, time } => {
            let effects: Vec<Effect> = handle_pointer_button(
                state,
                button,
                pressed,
                time,
                scale,
                serial,
                overlay_wants_pointer,
            );
            state.needs_redraw = true;
            effects
        },
    }
}

} // verus!
