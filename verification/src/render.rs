//! What a frame shows and where.

use vstd::prelude::*;
use vstd::string::*;

use crate::decorations::single;
use crate::frame::{first_step, opening, FrameStep};
use crate::geometry::{divisible, Place, Point, PointF, Rect, Size};
use crate::ieee::arith::{product, quotient, sum};
use crate::ieee::bits::{F32, F64};
use crate::ieee::convert::truncated;
use crate::ieee::format::{Float, Format};
use crate::state::{get_output_scale, BackendData, Desktop, FloraState};
use crate::window::{Window, TITLE_BAR_HEIGHT};

verus! {

/// Why there is no frame.
#[derive(Debug, Clone, Copy, PartialEq, Eq, Structural)]
pub enum RenderError {
    NoOutputMode,
    NoRenderer,
}

/// Colors of the close, minimize and maximize buttons, as red, green and blue.
pub const CLOSE_COLOR: [u8; 3] = [255, 95, 87];

pub const MINIMIZE_COLOR: [u8; 3] = [255, 189, 46];

pub const MAXIMIZE_COLOR: [u8; 3] = [40, 201, 64];

/// Radius of a button on a title bar.
pub const BUTTON_RADIUS: i32 = 6;

/// A button on a title bar, in logical coordinates: a disc about its middle.
/// Clicks count in a square about the same middle, with sides of `side`.
#[derive(Debug)]
pub struct TitleButton {
    pub x: F32,
    pub y: F32,
    pub radius: F32,
    pub side: F32,
    pub color: [u8; 3],
    pub id: String,
}

/// What a `TitleButton` stands for.
pub struct Knob {
    pub x: Float,
    pub y: Float,
    pub radius: Float,
    pub side: Float,
    pub color: [u8; 3],
    pub id: Seq<char>,
}

impl View for TitleButton {
    type V = Knob;

    open spec fn view(&self) -> Knob {
        Knob {
            x: self.x@,
            y: self.y@,
            radius: self.radius@,
            side: self.side@,
            color: self.color,
            id: self.id@,
        }
    }
}

/// A title bar on the overlay, in logical coordinates.
#[derive(Debug)]
pub struct TitleBar {
    pub window: usize,
    pub x: F32,
    pub y: F32,
    pub width: F32,
    pub height: F32,
    pub focused: bool,
    pub buttons: Vec<TitleButton>,
}

/// What a `TitleBar` stands for.
#[verifier::ext_equal]
pub struct Bar {
    pub window: int,
    pub x: Float,
    pub y: Float,
    pub width: Float,
    pub height: Float,
    pub focused: bool,
    pub buttons: Seq<Knob>,
}

pub open spec fn knobs(buttons: Seq<TitleButton>) -> Seq<Knob> {
    buttons.map_values(|button: TitleButton| button@)
}

impl View for TitleBar {
    type V = Bar;

    open spec fn view(&self) -> Bar {
        Bar {
            window: self.window as int,
            x: self.x@,
            y: self.y@,
            width: self.width@,
            height: self.height@,
            focused: self.focused,
            buttons: knobs(self.buttons@),
        }
    }
}

/// The digits of a number, the highest first.
pub open spec fn decimal(n: nat) -> Seq<char>
    decreases n,
{
    if n < 10 {
        seq!["0123456789"@[n as int]]
    } else {
        decimal(n / 10).push("0123456789"@[(n % 10) as int])
    }
}

/// The name of a button, by its window and its place.
pub open spec fn button_name(window: nat, button: nat) -> Seq<char> {
    "btn_"@ + decimal(window) + "_"@ + decimal(button)
}

fn digit(d: usize) -> (r: String)
    requires
        d < 10,
    ensures
        r@ == seq!["0123456789"@[d as int]],
{
    let digits: &str = "0123456789";
    proof {
        reveal_strlit("0123456789");
    }
    let r: String = digits.substring_char(d, d + 1).to_owned();
    assert(r@ =~= seq!["0123456789"@[d as int]]);
    r
}

fn decimal_string(n: usize) -> (r: String)
    ensures
        r@ == decimal(n as nat),
    decreases n,
{
    if n < 10 {
        digit(n)
    } else {
        let last: String = digit(n % 10);
        let r: String = decimal_string(n / 10).concat(last.as_str());
        assert(r@ =~= decimal(n as nat));
        r
    }
}

/// The name of a button.
pub fn button_id(window: usize, button: usize) -> (r: String)
    ensures
        r@ == button_name(window as nat, button as nat),
{
    let start: String = "btn_".to_owned();
    let first: String = decimal_string(window);
    let second: String = decimal_string(button);
    start.concat(first.as_str()).concat("_").concat(second.as_str())
}

/// Color of a button by its place.
pub open spec fn button_color(button: int) -> [u8; 3] {
    if button == 0 {
        CLOSE_COLOR
    } else if button == 1 {
        MINIMIZE_COLOR
    } else {
        MAXIMIZE_COLOR
    }
}

/// The buttons stand in a row from the left end of the bar, halfway down.
pub open spec fn knob_at(position: Point, window: int, button: int) -> Knob {
    Knob {
        x: sum(
            Format::Binary32,
            sum(Format::Binary32, single(position.x as int), single(10)),
            product(Format::Binary32, single(button), single(20)),
        ),
        y: sum(
            Format::Binary32,
            single(position.y as int),
            quotient(Format::Binary32, single(TITLE_BAR_HEIGHT as int), single(2)),
        ),
        radius: single(BUTTON_RADIUS as int),
        side: product(Format::Binary32, single(BUTTON_RADIUS as int), single(2)),
        color: button_color(button),
        id: button_name(window as nat, button as nat),
    }
}

/// The bar of a window at a whole scale.
pub open spec fn bar_of(window: Window, index: int, scale: i32, focus: Option<u64>) -> Bar {
    let position = window.location.scaled_down(scale);
    let size = window.client_size().scaled_up(scale).scaled_down(scale);
    Bar {
        window: index,
        x: single(position.x as int),
        y: single(position.y as int),
        width: single(size.w as int),
        height: single(TITLE_BAR_HEIGHT as int),
        focused: focus == Some(window.surface),
        buttons: seq![
            knob_at(position, index, 0),
            knob_at(position, index, 1),
            knob_at(position, index, 2),
        ],
    }
}

/// The place and the size of the window can be scaled.
pub open spec fn scalable(window: Window, scale: i32) -> bool {
    let physical = window.client_size().scaled_up(scale);
    &&& divisible(window.location.x, scale)
    &&& divisible(window.location.y, scale)
    &&& divisible(physical.w, scale)
    &&& divisible(physical.h, scale)
}

fn knob(position: Point, window: usize, button: usize, color: [u8; 3]) -> (r: TitleButton)
    requires
        button < 3,
        color == button_color(button as int),
    ensures
        r@ == knob_at(position, window as int, button as int),
{
    TitleButton {
        x: F32::from_i64(position.x as i64).plus(F32::from_i64(10)).plus(
            F32::from_i64(button as i64).times(F32::from_i64(20)),
        ),
        y: F32::from_i64(position.y as i64).plus(
            F32::from_i64(TITLE_BAR_HEIGHT as i64).over(F32::from_i64(2)),
        ),
        radius: F32::from_i64(BUTTON_RADIUS as i64),
        side: F32::from_i64(BUTTON_RADIUS as i64).times(F32::from_i64(2)),
        color,
        id: button_id(window, button),
    }
}

fn title_bar(window: &Window, index: usize, scale: i32, focus: Option<u64>) -> (r: TitleBar)
    requires
        scalable(*window, scale),
    ensures
        r@ == bar_of(*window, index as int, scale, focus),
{
    let position: Point = window.location.to_logical(scale);
    let size: Size = window.surface_size().to_physical(scale).to_logical(scale);
    let focused: bool = match focus {
        Some(surface) => surface == window.surface,
        None => false,
    };
    let mut buttons: Vec<TitleButton> = Vec::new();
    buttons.push(knob(position, index, 0, CLOSE_COLOR));
    buttons.push(knob(position, index, 1, MINIMIZE_COLOR));
    buttons.push(knob(position, index, 2, MAXIMIZE_COLOR));
    let r = TitleBar {
        window: index,
        x: F32::from_i64(position.x as i64),
        y: F32::from_i64(position.y as i64),
        width: F32::from_i64(size.w as i64),
        height: F32::from_i64(TITLE_BAR_HEIGHT as i64),
        focused,
        buttons,
    };
    assert(r@ =~= bar_of(*window, index as int, scale, focus));
    r
}

/// Color and alpha of a bar, not multiplied: a little lighter where the window
/// has the focus.
pub open spec fn bar_tint(focused: bool) -> (u8, u8, u8, u8) {
    if focused {
        (40, 40, 40, 200)
    } else {
        (30, 30, 30, 180)
    }
}

/// `egui::Color32::from_rgba_unmultiplied`, as its four bytes. The alpha is
/// kept, a channel without light stays without, equal channels stay equal, full
/// alpha keeps the color and no alpha gives no color. How much a channel is
/// darkened in between comes from powers in floating point and is not stated.
#[verifier::external_body]
fn multiplied(red: u8, green: u8, blue: u8, alpha: u8) -> (r: (u8, u8, u8, u8))
    ensures
        r.3 == alpha,
        red == 0 ==> r.0 == 0,
        green == 0 ==> r.1 == 0,
        blue == 0 ==> r.2 == 0,
        red == green ==> r.0 == r.1,
        green == blue ==> r.1 == r.2,
        alpha == 255 ==> r == (red, green, blue, 255u8),
        alpha == 0 ==> r == (0u8, 0u8, 0u8, 0u8),
{
    let color = egui::Color32::from_rgba_unmultiplied(red, green, blue, alpha);
    (color.r(), color.g(), color.b(), color.a())
}

/// The color that a bar is tinted with.
pub fn title_bar_tint(focused: bool) -> (r: (u8, u8, u8, u8))
    ensures
        r == bar_tint(focused),
{
    if focused {
        (40, 40, 40, 200)
    } else {
        (30, 30, 30, 180)
    }
}

/// Color of a bar, its tint with the alpha multiplied in: a gray of that alpha.
/// How dark it is is left to egui.
pub fn title_bar_color(focused: bool) -> (r: (u8, u8, u8, u8))
    ensures
        r.0 == r.1,
        r.1 == r.2,
        r.3 == bar_tint(focused).3,
{
    let (red, green, blue, alpha) = title_bar_tint(focused);
    multiplied(red, green, blue, alpha)
}

/// What a frame needs to be drawn, and the step it begins with.
pub struct Frame {
    pub first_step: FrameStep,
    pub output_size: Size,
    pub scale: F64,
}

pub open spec fn bars_view(bars: Seq<TitleBar>) -> Seq<Bar> {
    bars.map_values(|bar: TitleBar| bar@)
}

impl Desktop {
    /// The scale of the overlay, which is whole.
    pub open spec fn whole_scale(self) -> i32 {
        truncated(Format::Binary64, self.scale())
    }

    /// Why there is no frame, if there is none.
    pub open spec fn frame_error(self) -> Option<RenderError> {
        if self.mode() is None {
            Some(RenderError::NoOutputMode)
        } else if self.backend_data == BackendData::Drm && !self.has_renderer {
            Some(RenderError::NoRenderer)
        } else {
            None
        }
    }

    /// Every window can be laid out.
    pub open spec fn scalable(self) -> bool {
        forall|i: int|
            0 <= i < self.windows.len() ==> scalable(
                #[trigger] self.windows[i],
                self.whole_scale(),
            )
    }

    /// The bars of all windows, from the bottom to the top.
    pub open spec fn bars(self, focus: Option<u64>) -> Seq<Bar> {
        Seq::new(
            self.windows.len(),
            |i: int| bar_of(self.windows[i], i, self.whole_scale(), focus),
        )
    }
}

/// Begins a frame.
pub fn render_frame(state: &FloraState) -> (r: Result<Frame, RenderError>)
    ensures
        match r {
            Ok(frame) => {
                &&& state@.frame_error() is None
                &&& frame.first_step == opening(state@.backend_data)
                &&& Some(frame.output_size) == state@.mode()
                &&& frame.scale@ == state@.scale()
            },
            Err(error) => state@.frame_error() == Some(error),
        },
{
    let output_size: Size = match state.output_mode() {
        Some(size) => size,
        None => {
            return Err(RenderError::NoOutputMode);
        },
    };
    if state.backend_data == BackendData::Drm && !state.has_renderer {
        return Err(RenderError::NoRenderer);
    }
    Ok(
        Frame {
            first_step: first_step(state.backend_data),
            output_size,
            scale: get_output_scale(state),
        },
    )
}

/// Lays the bars of all windows out, given the surface that has the keyboard
/// focus.
pub fn title_bars(state: &FloraState, focus: Option<u64>) -> (r: Vec<TitleBar>)
    requires
        state@.scalable(),
    ensures
        bars_view(r@) == state@.bars(focus),
{
    let whole: i32 = get_output_scale(state).truncate();
    let mut bars: Vec<TitleBar> = Vec::new();
    let mut i: usize = 0;
    while i < state.windows.len()
        invariant
            i <= state.windows@.len(),
            whole == state@.whole_scale(),
            state@.scalable(),
            bars@.len() == i,
            forall|j: int|
                0 <= j < i ==> (#[trigger] bars@[j])@ == bar_of(
                    state@.windows[j],
                    j,
                    whole,
                    focus,
                ),
        decreases state.windows@.len() - i,
    {
        assert(scalable(state@.windows[i as int], whole));
        let bar: TitleBar = title_bar(&state.windows[i], i, whole, focus);
        bars.push(bar);
        i = i + 1;
    }
    assert(bars_view(bars@) =~= state@.bars(focus));
    bars
}

/// The close button of the bar was clicked, and that of no later bar.
pub open spec fn last_to_close(clicked: Seq<[bool; 3]>, index: int) -> bool {
    &&& 0 <= index < clicked.len()
    &&& clicked[index][0]
    &&& forall|later: int| index < later < clicked.len() ==> !(#[trigger] clicked[later])[0]
}

/// The window to close is the last one whose close button was clicked, if one
/// was.
pub open spec fn settles_close(clicked: Seq<[bool; 3]>, pending: Option<usize>) -> bool {
    match pending {
        Some(index) => last_to_close(clicked, index as int),
        None => forall|i: int| 0 <= i < clicked.len() ==> !(#[trigger] clicked[i])[0],
    }
}

/// The window to close, given which of the three buttons of each bar were
/// clicked: the last one whose close button was. The other buttons do not
/// count.
pub fn pending_close(clicked: &Vec<[bool; 3]>) -> (r: Option<usize>)
    ensures
        settles_close(clicked@, r),
{
    let mut i: usize = clicked.len();
    while i > 0
        invariant
            i <= clicked@.len(),
            forall|later: int| i <= later < clicked@.len() ==> !(#[trigger] clicked@[later])[0],
        decreases i,
    {
        i = i - 1;
        let buttons: [bool; 3] = clicked[i];
        if buttons[0] {
            return Some(i);
        }
    }
    None
}

impl Desktop {
    /// The pointer is not where it was when the cursor was last drawn.
    pub open spec fn cursor_moved(self) -> bool {
        !self.pointer.equals(self.last_pointer)
    }

    /// The place of the pointer noted, if it has moved.
    pub open spec fn with_cursor_noted(self) -> Desktop {
        if self.cursor_moved() {
            Desktop { last_pointer: self.pointer, ..self }
        } else {
            self
        }
    }
}

/// Whether the cursor has moved since it was last drawn; takes note of where it
/// is now.
pub fn take_cursor_motion(state: &mut FloraState) -> (r: bool)
    ensures
        r == old(state)@.cursor_moved(),
        final(state)@ == old(state)@.with_cursor_noted(),
{
    let moved: bool = !state.pointer_location.equals(state.last_pointer_location);
    if moved {
        state.last_pointer_location = state.pointer_location;
    }
    moved
}

/// Age of the buffer for damage tracking: zero, which has everything drawn, if
/// the cursor moved, else what the backend reports.
pub open spec fn age_of_buffer(cursor_moved: bool, reported: Option<usize>) -> usize {
    if cursor_moved {
        0
    } else {
        match reported {
            Some(age) => age,
            None => 0,
        }
    }
}

/// Finds the age of the buffer.
pub fn buffer_age(cursor_moved: bool, reported: Option<usize>) -> (r: usize)
    ensures
        r == age_of_buffer(cursor_moved, reported),
{
    if cursor_moved {
        0
    } else {
        reported.unwrap_or(0)
    }
}

/// The failure of a step is worth reporting.
pub open spec fn worth_reporting(backend: BackendData, error: Seq<char>) -> bool {
    !(backend == BackendData::Drm && error == "EmptyFrame"@)
}

/// Whether the failure of a step is worth reporting. That a native frame was
/// empty is not.
pub fn is_reported(backend: BackendData, error: &String) -> (r: bool)
    ensures
        r == worth_reporting(backend, error@),
{
    let empty: String = "EmptyFrame".to_owned();
    !(backend == BackendData::Drm && *error == empty)
}

/// Something to draw, in physical coordinates.
#[derive(Debug, Clone, Copy, PartialEq, Eq, Structural)]
pub enum Element {
    /// The overlay with the title bars.
    Overlay,
    /// The surface of a window, with all its subsurfaces.
    Surface { surface: u64, location: Point },
    /// The ground of a title bar.
    BarGround { surface: u64, rect: Rect },
    /// The surface of the cursor.
    Cursor { surface: u64, location: Point },
}

/// The window has a place and a size to be drawn at.
pub open spec fn drawable(window: Window) -> bool {
    &&& window.location.y + TITLE_BAR_HEIGHT <= i32::MAX
    &&& window.client_size().w >= 0
}

/// A window shows its surface below its bar, and the ground of the bar.
pub open spec fn window_elements(window: Window) -> Seq<Element> {
    seq![
        Element::Surface {
            surface: window.surface,
            location: Point {
                x: window.location.x,
                y: (window.location.y + TITLE_BAR_HEIGHT) as i32,
            },
        },
        Element::BarGround {
            surface: window.surface,
            rect: Rect {
                location: window.location,
                size: Size { w: window.client_size().w, h: TITLE_BAR_HEIGHT },
            },
        },
    ]
}

/// The elements of the windows, the topmost first.
pub open spec fn stacked_elements(windows: Seq<Window>) -> Seq<Element>
    decreases windows.len(),
{
    if windows.len() == 0 {
        Seq::empty()
    } else {
        window_elements(windows.last()) + stacked_elements(windows.drop_last())
    }
}

impl Desktop {
    pub open spec fn drawable(self) -> bool {
        forall|i: int| 0 <= i < self.windows.len() ==> drawable(#[trigger] self.windows[i])
    }

    /// What a frame shows: the overlay, the windows, the cursor.
    pub open spec fn elements(self, overlay_drawn: bool, cursor_alive: bool) -> Seq<Element> {
        let overlay = if overlay_drawn {
            seq![Element::Overlay]
        } else {
            Seq::empty()
        };
        let cursor = match self.cursor_surface {
            Some(surface) => if cursor_alive {
                seq![
                    Element::Cursor {
                        surface,
                        location: self.pointer.minus(Place::of(self.cursor_hotspot)).rounded(),
                    },
                ]
            } else {
                Seq::empty()
            },
            None => Seq::empty(),
        };
        overlay + stacked_elements(self.windows) + cursor
    }
}

/// Collects what a frame shows. The overlay is left out if it could not be
/// drawn, and so is the cursor if its surface is gone.
pub fn gather_elements(state: &FloraState, overlay_drawn: bool, cursor_alive: bool) -> (r: Vec<
    Element,
>)
    requires
        state@.drawable(),
    ensures
        r@ == state@.elements(overlay_drawn, cursor_alive),
{
    let mut elements: Vec<Element> = Vec::new();
    if overlay_drawn {
        elements.push(Element::Overlay);
    }
    let ghost overlay = elements@;
    let ghost windows = state.windows@;
    let mut i: usize = state.windows.len();
    proof {
        assert(windows.take(i as int) =~= windows);
        assert(overlay + stacked_elements(windows) =~= elements@ + stacked_elements(
            windows.take(i as int),
        ));
    }
    while i > 0
        invariant
            i <= state.windows@.len(),
            windows == state.windows@,
            state@.drawable(),
            overlay + stacked_elements(windows) == elements@ + stacked_elements(
                windows.take(i as int),
            ),
        decreases i,
    {
        let ghost before = elements@;
        i = i - 1;
        let window: Window = state.windows[i];
        assert(drawable(state@.windows[i as int]));
        let below: Point = Point { x: window.location.x, y: window.location.y + TITLE_BAR_HEIGHT };
        elements.push(Element::Surface { surface: window.surface, location: below });
        let size: Size = Size { w: window.surface_size().w, h: TITLE_BAR_HEIGHT };
        elements.push(
            Element::BarGround {
                surface: window.surface,
                rect: Rect { location: window.location, size },
            },
        );
        proof {
            assert(windows.take(i + 1).last() == window);
            assert(windows.take(i + 1).drop_last() =~= windows.take(i as int));
            assert(elements@ =~= before + window_elements(window));
            assert(before + (window_elements(window) + stacked_elements(windows.take(i as int)))
                =~= elements@ + stacked_elements(windows.take(i as int)));
        }
    }
    assert(elements@ + stacked_elements(windows.take(0)) =~= elements@);
    if let Some(surface) = state.cursor_surface {
        if cursor_alive {
            let location: Point = state.pointer_location.minus(
                PointF::from_point(state.cursor_hotspot),
            ).rounded();
            elements.push(Element::Cursor { surface, location });
        }
    }
    assert(elements@ =~= state@.elements(overlay_drawn, cursor_alive));
    elements
}

fn is_divisible(a: i32, b: i32) -> (r: bool)
    ensures
        r == divisible(a, b),
{
    b != 0 && !(a == i32::MIN && b == -1)
}

/// Whether the bars can be laid out and the elements collected: the scale
/// divides, and every window has a place and a size to be drawn at.
pub fn is_layable(state: &FloraState) -> (r: bool)
    ensures
        r == (state@.scalable() && state@.drawable()),
{
    let whole: i32 = get_output_scale(state).truncate();
    let mut i: usize = 0;
    while i < state.windows.len()
        invariant
            i <= state.windows@.len(),
            whole == state@.whole_scale(),
            forall|j: int| 0 <= j < i ==> scalable(#[trigger] state@.windows[j], whole),
            forall|j: int| 0 <= j < i ==> drawable(#[trigger] state@.windows[j]),
        decreases state.windows@.len() - i,
    {
        let window: Window = state.windows[i];
        let size: Size = window.surface_size();
        let physical: Size = size.to_physical(whole);
        let fits: bool = is_divisible(window.location.x, whole) && is_divisible(
            window.location.y,
            whole,
        ) && is_divisible(physical.w, whole) && is_divisible(physical.h, whole)
            && window.location.y <= i32::MAX - TITLE_BAR_HEIGHT && size.w >= 0;
        if !fits {
            assert(!(scalable(state@.windows[i as int], whole) && drawable(
                state@.windows[i as int],
            )));
            return false;
        }
        i = i + 1;
    }
    true
}

/// The time of a frame: the lowest thirty-two bits of the milliseconds.
pub open spec fn frame_time(millis: u128) -> u32 {
    (millis % 0x1_0000_0000) as u32
}

impl Desktop {
    /// The surfaces of all windows, each with the time of the frame.
    pub open spec fn callbacks(self, millis: u128) -> Seq<(u64, u32)> {
        Seq::new(
            self.windows.len(),
            |i: int| (self.windows[i].surface, frame_time(millis)),
        )
    }
}

impl FloraState {
    /// The surfaces that are told that a frame is done, with the time to tell:
    /// those of all windows.
    pub fn send_frame_callbacks(&self, elapsed_millis: u128) -> (r: Vec<(u64, u32)>)
        ensures
            r@ == self@.callbacks(elapsed_millis),
    {
        let time: u32 = (elapsed_millis % 0x1_0000_0000) as u32;
        let mut targets: Vec<(u64, u32)> = Vec::new();
        let mut i: usize = 0;
        while i < self.windows.len()
            invariant
                i <= self.windows@.len(),
                time == frame_time(elapsed_millis),
                targets@.len() == i,
                forall|j: int|
                    0 <= j < i ==> #[trigger] targets@[j] == (self@.windows[j].surface, time),
            decreases self.windows@.len() - i,
        {
            targets.push((self.windows[i].surface, time));
            i = i + 1;
        }
        assert(targets@ =~= self@.callbacks(elapsed_millis));
        targets
    }
}

} // verus!
