//! What a frame shows, and what it leaves as it is.

use vstd::prelude::*;

use crate::frame::{opening, FrameStep};
use crate::geometry::{Place, Point};
use crate::ieee::convert::saturated_i32;
use crate::ieee::exact::lemma_integer_difference;
use crate::ieee::format::Format;
use crate::ieee::rounding::lemma_pow2_values;
use crate::laws::drawing::law_topmost_is_drawn_first;
use crate::laws::measure::{
    hair, lemma_difference_near, lemma_hair, lemma_integer_reachable, lemma_nearest_half, pixel,
    reachable_place,
};
use crate::render::{
    age_of_buffer, drawable, frame_time, last_to_close, settles_close, stacked_elements,
    worth_reporting, Element, RenderError,
};
use crate::state::{BackendData, Desktop};
use crate::window::Window;

verus! {

proof fn lemma_stacked_kinds(windows: Seq<Window>)
    ensures
        stacked_elements(windows).len() == 2 * windows.len(),
        forall|i: int|
            0 <= i < stacked_elements(windows).len() ==> (#[trigger] stacked_elements(windows)[i])
                is Surface || stacked_elements(windows)[i] is BarGround,
    decreases windows.len(),
{
    if windows.len() > 0 {
        lemma_stacked_kinds(windows.drop_last());
        let below = stacked_elements(windows.drop_last());
        let all = stacked_elements(windows);
        assert forall|i: int| 0 <= i < all.len() implies (#[trigger] all[i]) is Surface
            || all[i] is BarGround by {
            if i >= 2 {
                assert(all[i] == below[i - 2]);
            }
        }
    }
}

/// The overlay is among the elements, once and as the first, exactly if it could
/// be drawn, whatever else there is; the others do not depend on it.
pub proof fn law_overlay_stands_first(desktop: Desktop, cursor_alive: bool)
    ensures
        ({
            let with = desktop.elements(true, cursor_alive);
            let without = desktop.elements(false, cursor_alive);
            &&& with.len() == without.len() + 1
            &&& with[0] == Element::Overlay
            &&& forall|i: int| 0 <= i < without.len() ==> #[trigger] without[i] == with[i + 1]
            &&& forall|i: int| 0 <= i < without.len() ==> #[trigger] without[i] != Element::Overlay
        }),
{
    lemma_stacked_kinds(desktop.windows);
    let with = desktop.elements(true, cursor_alive);
    let without = desktop.elements(false, cursor_alive);
    let stacked = stacked_elements(desktop.windows);
    assert forall|i: int| 0 <= i < without.len() implies #[trigger] without[i] == with[i + 1]
        && without[i] != Element::Overlay by {
        if i < stacked.len() {
            assert(without[i] == stacked[i]);
            assert(with[i + 1] == stacked[i]);
        }
    }
}

/// The cursor is among the elements, once and as the last, exactly if it has a
/// surface that is still there; the others do not depend on it.
pub proof fn law_cursor_stands_last(desktop: Desktop, overlay_drawn: bool, cursor_alive: bool)
    ensures
        ({
            let elements = desktop.elements(overlay_drawn, cursor_alive);
            let others = desktop.elements(overlay_drawn, false);
            &&& desktop.elements(overlay_drawn, false) == (Desktop {
                cursor_surface: None,
                ..desktop
            }).elements(overlay_drawn, cursor_alive)
            &&& forall|i: int| 0 <= i < others.len() ==> !((#[trigger] others[i]) is Cursor)
            &&& match desktop.cursor_surface {
                Some(surface) if cursor_alive => {
                    &&& elements.len() == others.len() + 1
                    &&& elements.drop_last() == others
                    &&& elements.last() is Cursor
                    &&& elements.last()->Cursor_surface == surface
                },
                _ => elements == others,
            }
        }),
{
    lemma_stacked_kinds(desktop.windows);
    let elements = desktop.elements(overlay_drawn, cursor_alive);
    let others = desktop.elements(overlay_drawn, false);
    let bare = Desktop { cursor_surface: None, ..desktop };
    assert(others =~= bare.elements(overlay_drawn, cursor_alive));
    let stacked = stacked_elements(desktop.windows);
    let shift = if overlay_drawn {
        1int
    } else {
        0
    };
    assert forall|i: int| 0 <= i < others.len() implies !((#[trigger] others[i]) is Cursor) by {
        if i >= shift {
            assert(others[i] == stacked[i - shift]);
        }
    }
    if desktop.cursor_surface is Some && cursor_alive {
        assert(elements.drop_last() =~= others);
    } else {
        assert(elements =~= others);
    }
}

/// On whole pixels the surface of the cursor lies so that its hotspot is where
/// the pointer is.
pub proof fn law_hotspot_is_where_the_pointer_is(
    desktop: Desktop,
    overlay_drawn: bool,
    at: Point,
)
    requires
        desktop.pointer == Place::of(at),
        desktop.cursor_surface is Some,
    ensures
        ({
            let location = desktop.elements(overlay_drawn, true).last()->Cursor_location;
            &&& location.x == saturated_i32(at.x - desktop.cursor_hotspot.x)
            &&& location.y == saturated_i32(at.y - desktop.cursor_hotspot.y)
        }),
{
    lemma_pixels_apart(at.x as int, desktop.cursor_hotspot.x as int);
    lemma_pixels_apart(at.y as int, desktop.cursor_hotspot.y as int);
}

proof fn lemma_pixels_apart(a: int, b: int)
    requires
        i32::MIN <= a <= i32::MAX,
        i32::MIN <= b <= i32::MAX,
    ensures
        crate::ieee::convert::nearest_i32(
            Format::Binary64,
            crate::ieee::arith::difference(
                Format::Binary64,
                crate::geometry::double(a),
                crate::geometry::double(b),
            ),
        ) == saturated_i32(a - b),
{
    crate::laws::desktop::lemma_pixel_drag(b, a, 0);
    lemma_pow2_values();
    lemma_integer_difference(Format::Binary64, b, 0);
}

/// Between the pixels too, the hotspot is at most half a pixel and a hair from
/// the pointer.
pub proof fn law_hotspot_is_near_the_pointer(desktop: Desktop, overlay_drawn: bool)
    requires
        reachable_place(desktop.pointer),
        desktop.cursor_surface is Some,
        ({
            let (hotspot, u) = (desktop.cursor_hotspot, pixel());
            &&& -0x7fff_0000 * u <= desktop.pointer.x.value() - hotspot.x * u <= 0x7fff_0000 * u
            &&& -0x7fff_0000 * u <= desktop.pointer.y.value() - hotspot.y * u <= 0x7fff_0000 * u
        }),
    ensures
        ({
            let location = desktop.elements(overlay_drawn, true).last()->Cursor_location;
            let (hotspot, pointer, u) = (desktop.cursor_hotspot, desktop.pointer, pixel());
            let slack = u + hair();
            &&& -slack <= 2 * ((location.x + hotspot.x) * u - pointer.x.value()) <= slack
            &&& -slack <= 2 * ((location.y + hotspot.y) * u - pointer.y.value()) <= slack
        }),
{
    let (hotspot, pointer, u) = (desktop.cursor_hotspot, desktop.pointer, pixel());
    lemma_hair();
    lemma_integer_reachable(hotspot.x);
    lemma_integer_reachable(hotspot.y);
    let place = pointer.minus(Place::of(hotspot));
    lemma_difference_near(pointer.x, Place::of(hotspot).x);
    lemma_difference_near(pointer.y, Place::of(hotspot).y);
    lemma_nearest_half(place.x);
    lemma_nearest_half(place.y);
    let location = place.rounded();
    assert((location.x + hotspot.x) * u == location.x * u + hotspot.x * u) by (nonlinear_arith);
    assert((location.y + hotspot.y) * u == location.y * u + hotspot.y * u) by (nonlinear_arith);
}

/// Each window is shown once: its surface thirty rows below its corner, and the
/// ground of its bar at its corner, as wide as its client area and thirty rows
/// high. Windows stand from the topmost to the bottommost.
pub proof fn law_each_window_is_shown_once(desktop: Desktop, index: int)
    requires
        desktop.drawable(),
        0 <= index < desktop.windows.len(),
    ensures
        ({
            let elements = desktop.elements(false, false);
            let window = desktop.windows[index];
            let at = 2 * (desktop.windows.len() - 1 - index);
            let (surface, ground) = (elements[at], elements[at + 1]);
            &&& elements.len() == 2 * desktop.windows.len()
            &&& surface is Surface
            &&& surface->Surface_surface == window.surface
            &&& surface->Surface_location.x == window.location.x
            &&& surface->Surface_location.y == window.location.y + 30
            &&& ground is BarGround
            &&& ground->BarGround_surface == window.surface
            &&& ground->rect.location == window.location
            &&& ground->rect.size.w == window.client_size().w
            &&& ground->rect.size.h == 30
        }),
{
    let window = desktop.windows[index];
    assert(drawable(window));
    law_topmost_is_drawn_first(desktop.windows, index);
    let elements = desktop.elements(false, false);
    let stacked = stacked_elements(desktop.windows);
    let at = 2 * (desktop.windows.len() - 1 - index);
    assert(elements =~= stacked);
    let shown = stacked.subrange(at, at + 2);
    assert(shown[0] == stacked[at]);
    assert(shown[1] == stacked[at + 1]);
}

/// A click on the close button of one more bar is the one that counts; a bar
/// without one changes nothing, whatever its other buttons say.
pub proof fn law_the_last_close_counts(clicked: Seq<[bool; 3]>, buttons: [bool; 3], index: int)
    ensures
        buttons[0] ==> (last_to_close(clicked.push(buttons), index) <==> index == clicked.len()),
        !buttons[0] ==> (last_to_close(clicked.push(buttons), index) <==> last_to_close(
            clicked,
            index,
        )),
        clicked.len() == 0 ==> !last_to_close(clicked, index),
{
    let more = clicked.push(buttons);
    let last = clicked.len() as int;
    assert(more[last] == buttons);
    assert forall|i: int| 0 <= i < last implies #[trigger] more[i] == clicked[i] by {}
    if last_to_close(more, index) && !buttons[0] {
        assert forall|later: int| index < later < clicked.len() implies !(#[trigger] clicked[later])[0] by {
            assert(!more[later][0]);
        }
    }
    if last_to_close(more, index) && buttons[0] && index < last {
        assert(!more[last][0]);
    }
}

/// Where a close button was clicked some window is closed, and it is one whose
/// close button was; where none was, none is.
pub proof fn law_clicked_windows_are_closed(clicked: Seq<[bool; 3]>, pending: Option<usize>)
    requires
        settles_close(clicked, pending),
    ensures
        pending is Some <==> exists|i: int| 0 <= i < clicked.len() && (#[trigger] clicked[i])[0],
        pending matches Some(index) ==> index < clicked.len() && clicked[index as int][0],
{
}

/// Every failure is reported but one: of native frames, one failure is not, and
/// that is the empty frame.
pub proof fn law_one_failure_goes_unreported(text: Seq<char>, other: Seq<char>)
    ensures
        worth_reporting(BackendData::Winit, text),
        !worth_reporting(BackendData::Drm, "EmptyFrame"@),
        !worth_reporting(BackendData::Drm, text) && !worth_reporting(BackendData::Drm, other)
            ==> text == other,
{
}

/// The cursor counts as moved exactly if one of its coordinates differs from
/// where it was last drawn.
pub proof fn law_cursor_motion_is_a_change_of_place(desktop: Desktop)
    requires
        desktop.pointer.x is Finite,
        desktop.pointer.y is Finite,
        desktop.last_pointer.x is Finite,
        desktop.last_pointer.y is Finite,
    ensures
        desktop.cursor_moved() <==> desktop.pointer.x.value() != desktop.last_pointer.x.value()
            || desktop.pointer.y.value() != desktop.last_pointer.y.value(),
        desktop.cursor_moved() ==> desktop.with_cursor_noted().last_pointer == desktop.pointer,
        !desktop.cursor_moved() ==> desktop.with_cursor_noted() == desktop,
{
}

/// A moved cursor has everything drawn, whatever the backend reports; else what
/// it reports counts, and nothing reported has everything drawn.
pub proof fn law_buffer_age(reported: Option<usize>, age: usize)
    ensures
        age_of_buffer(true, reported) == 0,
        age_of_buffer(false, Some(age)) == age,
        age_of_buffer(false, None) == 0,
{
}

/// A frame is refused for want of a mode, and a native one for want of a
/// renderer, and for nothing else.
pub proof fn law_what_a_frame_needs(desktop: Desktop)
    ensures
        desktop.mode() is None <==> desktop.frame_error() == Some(RenderError::NoOutputMode),
        desktop.frame_error() == Some(RenderError::NoRenderer) <==> desktop.mode() is Some
            && desktop.backend_data == BackendData::Drm && !desktop.has_renderer,
        desktop.backend_data != BackendData::Drm && desktop.mode() is Some
            ==> desktop.frame_error() is None,
        opening(BackendData::Unset) == FrameStep::Flush,
{
}

/// All windows are told of a frame, from the bottom to the top, all with the
/// same time: the milliseconds, counted round after `2^32` of them.
pub proof fn law_every_window_is_told_of_the_frame(desktop: Desktop, millis: u128, index: int)
    requires
        0 <= index < desktop.windows.len(),
    ensures
        desktop.callbacks(millis).len() == desktop.windows.len(),
        match desktop.callbacks(millis)[index] {
            (surface, time) => {
                &&& surface == desktop.windows[index].surface
                &&& time == frame_time(millis)
            },
        },
        millis < 0x1_0000_0000 ==> frame_time(millis) == millis,
        millis < 0x1_0000_0000_0000_0000 ==> frame_time((millis + 0x1_0000_0000) as u128)
            == frame_time(millis),
{
}

} // verus!
