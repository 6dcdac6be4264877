//! What moving the pointer does, and who is told of it.

use vstd::arithmetic::power2::*;
use vstd::prelude::*;

use crate::geometry::{double, Place, Point, Size};
use crate::ieee::convert::saturated_i32;
use crate::ieee::exact::{
    lemma_integer_exact, lemma_integer_sum, lemma_rounded_exact, lemma_rounded_monotone,
    lemma_rounding_error,
};
use crate::ieee::format::{Float, Format};
use crate::ieee::rounding::lemma_pow2_values;
use crate::input::{clamped, client_under, region_of, window_under, FloraInputEvent, PointerFocus};
use crate::laws::clicks::topmost_hit;
use crate::laws::desktop::{
    is_motion, law_client_under_is_topmost, law_drag_follows_pointer, law_scale_one_is_identity,
    law_window_under_is_topmost,
};
use crate::laws::measure::{
    divides, hair, lemma_difference_near, lemma_hair, lemma_integer_reachable, lemma_nearest_half,
    lemma_product_near, lemma_quotient_near, lemma_sum_near, lemma_truncated_toward_zero,
    multiplies, near, pixel, reachable, reachable_place,
};
use crate::state::Desktop;
use crate::window::{HitRegion, Window};

verus! {

/// The number from zero to a length that is nearest to a given one.
pub open spec fn held(n: int, length: int) -> int {
    if n < 0 {
        0
    } else if n > length {
        length
    } else {
        n
    }
}

/// The pixel of the output that is nearest to a given one.
pub open spec fn on_output(x: int, y: int, size: Size) -> Point {
    Point { x: held(x, size.w as int) as i32, y: held(y, size.h as int) as i32 }
}

/// Clamping leads to the nearest coordinate on the axis: from beyond an end to
/// that end, and from nowhere to the start.
pub proof fn law_clamping_leads_to_the_nearest_end(a: Float, length: i32)
    requires
        0 <= length,
        a is Finite ==> a.valid(Format::Binary64),
    ensures
        clamped(a, length) is Finite,
        clamped(a, length).valid(Format::Binary64),
        a is Finite ==> clamped(a, length).value() == held(a.value(), length * pixel()),
        a is NotANumber ==> clamped(a, length).value() == 0,
        a == (Float::Infinite { negative: true }) ==> clamped(a, length).value() == 0,
        a == (Float::Infinite { negative: false }) ==> clamped(a, length).value() == length
            * pixel(),
{
    lemma_integer_reachable(0);
    lemma_integer_reachable(length);
    lemma_hair();
    assert(0 * pixel() == 0);
    assert(length * pixel() >= 0) by (nonlinear_arith)
        requires
            length >= 0,
            pixel() > 0,
    ;
}

proof fn lemma_clamped_integer(n: int, length: i32)
    requires
        0 <= length,
        -0x1_0000_0000 <= n <= 0x1_0000_0000,
    ensures
        clamped(double(n), length) == double(held(n, length as int)),
{
    lemma_pow2_values();
    lemma_integer_exact(Format::Binary64, n);
    lemma_integer_exact(Format::Binary64, 0);
    lemma_integer_exact(Format::Binary64, length as int);
    crate::window::lemma_integer_order(n, 0);
    crate::window::lemma_integer_order(length as int, n);
    crate::window::lemma_integer_order(length as int, 0);
}

/// On whole pixels a relative motion, in whatever direction, takes the pointer
/// by exactly that much, and no farther than to the edge of the output. Without
/// an output there is no edge.
pub proof fn law_relative_motion_moves_the_pointer(
    desktop: Desktop,
    event: FloraInputEvent,
    overlay_wants_pointer: bool,
    from: Point,
    by: Point,
)
    requires
        event is PointerMotion,
        event->delta@ == Place::of(by),
        desktop.pointer == Place::of(from),
        desktop.mode() matches Some(size) ==> 0 <= size.w && 0 <= size.h,
    ensures
        ({
            let pointer = desktop.after_event(event, overlay_wants_pointer).pointer;
            match desktop.mode() {
                Some(size) => pointer == Place::of(on_output(from.x + by.x, from.y + by.y, size)),
                None => pointer.x == double(from.x + by.x) && pointer.y == double(from.y + by.y),
            }
        }),
{
    lemma_pow2_values();
    lemma_integer_sum(Format::Binary64, from.x as int, by.x as int);
    lemma_integer_sum(Format::Binary64, from.y as int, by.y as int);
    if let Some(size) = desktop.mode() {
        lemma_clamped_integer(from.x + by.x, size.w);
        lemma_clamped_integer(from.y + by.y, size.h);
    }
}

/// Between the pixels too, a relative motion takes the pointer by as much as it
/// says, up to half a hair, and no farther than to the edge of the output.
pub proof fn law_relative_motion_between_pixels(
    desktop: Desktop,
    event: FloraInputEvent,
    overlay_wants_pointer: bool,
    size: Size,
)
    requires
        event is PointerMotion,
        reachable_place(event->delta@),
        reachable_place(desktop.pointer),
        desktop.mode() == Some(size),
        0 <= size.w,
        0 <= size.h,
    ensures
        ({
            let pointer = desktop.after_event(event, overlay_wants_pointer).pointer;
            let (from, by) = (desktop.pointer, event->delta@);
            &&& pointer.x is Finite
            &&& pointer.y is Finite
            &&& near(
                pointer.x.value(),
                held(from.x.value() + by.x.value(), size.w * pixel()),
            )
            &&& near(
                pointer.y.value(),
                held(from.y.value() + by.y.value(), size.h * pixel()),
            )
        }),
{
    let (from, by) = (desktop.pointer, event->delta@);
    let target = from.plus(by);
    lemma_hair();
    lemma_sum_near(from.x, by.x);
    lemma_sum_near(from.y, by.y);
    law_clamping_leads_to_the_nearest_end(target.x, size.w);
    law_clamping_leads_to_the_nearest_end(target.y, size.h);
}

/// Without an output there is no edge, and the pointer goes as far as it is told.
pub proof fn law_relative_motion_without_an_output(
    desktop: Desktop,
    event: FloraInputEvent,
    overlay_wants_pointer: bool,
)
    requires
        event is PointerMotion,
        reachable_place(event->delta@),
        reachable_place(desktop.pointer),
        desktop.mode() is None,
    ensures
        ({
            let pointer = desktop.after_event(event, overlay_wants_pointer).pointer;
            let (from, by) = (desktop.pointer, event->delta@);
            &&& pointer.x is Finite
            &&& pointer.y is Finite
            &&& near(pointer.x.value(), from.x.value() + by.x.value())
            &&& near(pointer.y.value(), from.y.value() + by.y.value())
        }),
{
    lemma_sum_near(desktop.pointer.x, event->delta@.x);
    lemma_sum_near(desktop.pointer.y, event->delta@.y);
}

/// A step farther than any output is long, forward or, with `back`, backward.
pub open spec fn is_leap(a: Float, back: bool) -> bool {
    match a {
        Float::NotANumber => false,
        Float::Infinite { negative } => negative == back,
        Float::Finite { .. } => {
            &&& a.valid(Format::Binary64)
            &&& 2 * (0x8000_0000 * pixel()) <= a.units() < pow2(2090)
            &&& a.is_negative() == back
        },
    }
}

/// A motion farther than the output is long ends at the edge that it leads to.
pub proof fn law_leaps_end_at_the_edge(
    desktop: Desktop,
    event: FloraInputEvent,
    overlay_wants_pointer: bool,
    size: Size,
    back: bool,
)
    requires
        event is PointerMotion,
        reachable_place(desktop.pointer),
        desktop.mode() == Some(size),
        0 <= size.w,
        0 <= size.h,
    ensures
        ({
            let pointer = desktop.after_event(event, overlay_wants_pointer).pointer;
            let by = event->delta@;
            &&& is_leap(by.x, back) ==> pointer.x == double(
                if back {
                    0
                } else {
                    size.w as int
                },
            )
            &&& is_leap(by.y, back) ==> pointer.y == double(
                if back {
                    0
                } else {
                    size.h as int
                },
            )
        }),
{
    if is_leap(event->delta@.x, back) {
        lemma_leap(desktop.pointer.x, event->delta@.x, size.w, back);
    }
    if is_leap(event->delta@.y, back) {
        lemma_leap(desktop.pointer.y, event->delta@.y, size.h, back);
    }
}

proof fn lemma_leap(from: Float, by: Float, length: i32, back: bool)
    requires
        reachable(from),
        is_leap(by, back),
        0 <= length,
    ensures
        clamped(crate::ieee::arith::sum(Format::Binary64, from, by), length) == double(
            if back {
                0
            } else {
                length as int
            },
        ),
{
    let format = Format::Binary64;
    lemma_hair();
    lemma_integer_reachable(0);
    lemma_integer_reachable(length);
    lemma_pow2_values();
    let u = pixel();
    assert(0 * u == 0);
    assert(0 <= length * u < 0x8000_0000 * u) by (nonlinear_arith)
        requires
            0 <= length < 0x8000_0000,
            u > 0,
    ;
    if by is Finite {
        let exact = from.value() + by.value();
        let size = if exact < 0 {
            (-exact) as nat
        } else {
            exact as nat
        };
        lemma_pow2_strictly_increases(1105, 2090);
        lemma_pow2_unfold(2091);
        assert(53 + 2038 == 2091nat);
        assert(pow2(1105) == 1 * pow2(1105));
        lemma_rounded_exact(format, back, 1, 1105);
        lemma_rounded_monotone(format, back, pow2(1105), size, 2038);
        lemma_rounding_error(format, back, size, 2038);
    }
}

/// An absolute motion takes the pointer to that share of the output on each
/// axis, wherever it was before, up to half a hair, and no farther than to the
/// edge.
pub proof fn law_absolute_motion_takes_a_share(
    desktop: Desktop,
    event: FloraInputEvent,
    overlay_wants_pointer: bool,
    size: Size,
)
    requires
        event is PointerMotionAbsolute,
        desktop.mode() == Some(size),
        0 <= size.w,
        0 <= size.h,
        multiplies(double(size.w as int), event->location@.x),
        multiplies(double(size.h as int), event->location@.y),
    ensures
        ({
            let pointer = desktop.after_event(event, overlay_wants_pointer).pointer;
            let share = event->location@;
            &&& pointer.x is Finite
            &&& pointer.y is Finite
            &&& near(pointer.x.value(), held(share.x.value() * size.w, size.w * pixel()))
            &&& near(pointer.y.value(), held(share.y.value() * size.h, size.h * pixel()))
        }),
{
    let share = event->location@;
    lemma_hair();
    lemma_share(share.x, size.w);
    lemma_share(share.y, size.h);
    let target = desktop.absolute_target(share);
    law_clamping_leads_to_the_nearest_end(target.x, size.w);
    law_clamping_leads_to_the_nearest_end(target.y, size.h);
}

proof fn lemma_share(a: Float, length: i32)
    requires
        0 <= length,
        multiplies(double(length as int), a),
    ensures
        ({
            let r = crate::ieee::arith::product(Format::Binary64, a, double(length as int));
            &&& r is Finite
            &&& r.valid(Format::Binary64)
            &&& near(r.value(), a.value() * length)
        }),
{
    lemma_hair();
    lemma_integer_reachable(length);
    lemma_product_near(a, double(length as int));
    let r = crate::ieee::arith::product(Format::Binary64, a, double(length as int)).value();
    let (v, u, h) = (a.value(), pixel(), hair());
    assert(v * (length * u) == (v * length) * u) by (nonlinear_arith);
    let off = 2 * (r - v * length);
    assert(2 * (r * u - (v * length) * u) == off * u) by (nonlinear_arith)
        requires
            off == 2 * (r - v * length),
    ;
    assert(-h <= off <= h) by (nonlinear_arith)
        requires
            -(u * h) <= off * u <= u * h,
            u > 0,
    ;
}

/// Without an output an absolute motion leaves the pointer where it is.
pub proof fn law_absolute_motion_needs_an_output(
    desktop: Desktop,
    event: FloraInputEvent,
    overlay_wants_pointer: bool,
)
    requires
        event is PointerMotionAbsolute,
        desktop.mode() is None,
    ensures
        desktop.after_event(event, overlay_wants_pointer).pointer == desktop.pointer,
{
}

/// Time of a motion.
pub open spec fn motion_time(event: FloraInputEvent) -> u32 {
    match event {
        FloraInputEvent::PointerMotion { delta, time } => time,
        FloraInputEvent::PointerMotionAbsolute { location, time } => time,
        _ => 0,
    }
}

/// A motion moves the pointer and no window but the one that is held, and
/// changes nothing else but that a frame is asked for.
pub proof fn law_motion_moves_only_the_held_window(
    desktop: Desktop,
    event: FloraInputEvent,
    overlay_wants_pointer: bool,
)
    requires
        is_motion(event),
    ensures
        ({
            let after = desktop.after_event(event, overlay_wants_pointer);
            &&& after.windows.len() == desktop.windows.len()
            &&& forall|i: int|
                0 <= i < after.windows.len() && !(desktop.grab matches Some((held, offset)) && held
                    == i) ==> #[trigger] after.windows[i] == desktop.windows[i]
            &&& forall|i: int|
                0 <= i < after.windows.len() ==> (#[trigger] after.windows[i]).surface
                    == desktop.windows[i].surface && after.windows[i].size
                    == desktop.windows[i].size
            &&& after == (Desktop {
                pointer: after.pointer,
                windows: after.windows,
                needs_redraw: true,
                ..desktop
            })
        }),
{
}

/// The window that is held lies on the pixel nearest to the pointer less the
/// place where it is held.
pub proof fn law_held_window_stays_under_the_pointer(
    desktop: Desktop,
    event: FloraInputEvent,
    overlay_wants_pointer: bool,
    index: int,
    offset: Place,
)
    requires
        is_motion(event),
        desktop.grab == Some((index, offset)),
        0 <= index < desktop.windows.len(),
        reachable_place(offset),
        ({
            let pointer = desktop.after_event(event, overlay_wants_pointer).pointer;
            &&& reachable_place(pointer)
            &&& -0x7fff_0000 * pixel() <= pointer.x.value() - offset.x.value() <= 0x7fff_0000
                * pixel()
            &&& -0x7fff_0000 * pixel() <= pointer.y.value() - offset.y.value() <= 0x7fff_0000
                * pixel()
        }),
    ensures
        ({
            let after = desktop.after_event(event, overlay_wants_pointer);
            let location = after.windows[index].location;
            let slack = pixel() + hair();
            &&& -slack <= 2 * (location.x * pixel() - (after.pointer.x.value() - offset.x.value()))
                <= slack
            &&& -slack <= 2 * (location.y * pixel() - (after.pointer.y.value() - offset.y.value()))
                <= slack
        }),
{
    let after = desktop.after_event(event, overlay_wants_pointer);
    lemma_hair();
    lemma_difference_near(after.pointer.x, offset.x);
    lemma_difference_near(after.pointer.y, offset.y);
    let place = after.pointer.minus(offset);
    lemma_nearest_half(place.x);
    lemma_nearest_half(place.y);
    assert(after.windows[index].location == place.rounded());
}

/// On whole pixels, a window that is pressed on its bar and then dragged moves
/// by as much as the pointer.
pub proof fn law_press_and_motion_drag_the_window(
    desktop: Desktop,
    button: u32,
    time: u32,
    motion: FloraInputEvent,
    index: int,
    from: Point,
    by: Point,
    size: Size,
)
    requires
        desktop.pointer == Place::of(from),
        topmost_hit(desktop.windows, desktop.pointer, desktop.scale(), index),
        region_of(desktop.windows[index], desktop.pointer, desktop.scale()) == HitRegion::TitleBar,
        motion is PointerMotion,
        motion->delta@ == Place::of(by),
        desktop.mode() == Some(size),
        0 <= from.x + by.x <= size.w,
        0 <= from.y + by.y <= size.h,
    ensures
        ({
            let held = desktop.after_event(
                FloraInputEvent::PointerButton { button, pressed: true, time },
                false,
            );
            let after = held.after_event(motion, false);
            let start = desktop.windows[index].location;
            &&& after.windows.last().surface == desktop.windows[index].surface
            &&& after.windows.last().location.x == saturated_i32(start.x + by.x)
            &&& after.windows.last().location.y == saturated_i32(start.y + by.y)
            &&& after.windows.drop_last() == desktop.windows.remove(index)
        }),
{
    law_window_under_is_topmost(desktop.windows, desktop.pointer, desktop.scale());
    let found = window_under(desktop.windows, desktop.pointer, desktop.scale());
    assert(found == Some(index)) by {
        if let Some(other) = found {
            if other < index {
                assert(region_of(desktop.windows[index], desktop.pointer, desktop.scale())
                    == HitRegion::Outside);
            }
        } else {
            assert(region_of(desktop.windows[index], desktop.pointer, desktop.scale())
                == HitRegion::Outside);
        }
    }
    let held = desktop.after_event(
        FloraInputEvent::PointerButton { button, pressed: true, time },
        false,
    );
    let to = Point { x: (from.x + by.x) as i32, y: (from.y + by.y) as i32 };
    law_relative_motion_moves_the_pointer(held, motion, false, from, by);
    law_drag_follows_pointer(desktop, desktop.scale(), index, from, to);
    let after = held.after_event(motion, false);
    let moved = Desktop { pointer: Place::of(to), ..desktop.pressed(desktop.scale()) };
    assert(after.windows == moved.with_dragged_window().windows);
    assert(held.windows.drop_last() =~= desktop.windows.remove(index));
}

/// The client area of the window at an index is hit, and none above it.
pub open spec fn topmost_client(
    windows: Seq<Window>,
    pointer: Place,
    scale: Float,
    index: int,
) -> bool {
    &&& 0 <= index < windows.len()
    &&& region_of(windows[index], pointer, scale) is Client
    &&& forall|above: int|
        index < above < windows.len() ==> !(region_of(#[trigger] windows[above], pointer, scale)
            is Client)
}

/// The focus is on the surface of the window, at the place that is hit.
pub open spec fn focuses(under: Option<PointerFocus>, window: Window, region: HitRegion) -> bool {
    match (under, region) {
        (Some(focus), HitRegion::Client { local_x, local_y }) => {
            &&& focus.surface == window.surface
            &&& focus.local.x == local_x
            &&& focus.local.y == local_y
        },
        _ => false,
    }
}

/// The focus is on the topmost client area that is hit, and on none where none
/// is.
pub open spec fn focus_is_right(
    under: Option<PointerFocus>,
    windows: Seq<Window>,
    pointer: Place,
    scale: Float,
) -> bool {
    &&& forall|index: int| #[trigger]
        topmost_client(windows, pointer, scale, index) ==> focuses(
            under,
            windows[index],
            region_of(windows[index], pointer, scale),
        )
    &&& (forall|i: int|
        0 <= i < windows.len() ==> !(region_of(#[trigger] windows[i], pointer, scale)
            is Client)) ==> under is None
}

proof fn lemma_focus_is_right(windows: Seq<Window>, pointer: Place, scale: Float)
    ensures
        focus_is_right(client_under(windows, pointer, scale), windows, pointer, scale),
{
    law_client_under_is_topmost(windows, pointer, scale);
    let under = client_under(windows, pointer, scale);
    if let Some(focus) = under {
        let found = choose|found: int|
            {
                &&& 0 <= found < windows.len()
                &&& (#[trigger] windows[found]).surface == focus.surface
                &&& region_of(windows[found], pointer, scale) == (HitRegion::Client {
                    local_x: focus.local.x,
                    local_y: focus.local.y,
                })
                &&& forall|i: int|
                    found < i < windows.len() ==> !(region_of(#[trigger] windows[i], pointer, scale)
                        is Client)
            };
        assert(region_of(windows[found], pointer, scale) is Client);
        assert forall|index: int| #[trigger]
            topmost_client(windows, pointer, scale, index) implies focuses(
            under,
            windows[index],
            region_of(windows[index], pointer, scale),
        ) by {
            assert(region_of(windows[index], pointer, scale) is Client);
            assert(found == index);
        }
    } else {
        assert forall|index: int| #[trigger]
            topmost_client(windows, pointer, scale, index) implies focuses(
            under,
            windows[index],
            region_of(windows[index], pointer, scale),
        ) by {
            assert(!(region_of(windows[index], pointer, scale) is Client));
        }
    }
}

/// A motion is told twice: the overlay is told first, then the seat, with the
/// time of the event. The seat is told the surface of the topmost client area
/// under the pointer and the place on it, and none where there is none.
pub proof fn law_motion_is_told(
    desktop: Desktop,
    event: FloraInputEvent,
    serial: u32,
    overlay_wants_pointer: bool,
)
    requires
        is_motion(event),
    ensures
        ({
            let after = desktop.after_event(event, overlay_wants_pointer);
            let deeds = desktop.event_deeds(event, serial, overlay_wants_pointer);
            &&& deeds.len() == 2
            &&& deeds[0] is OverlayMotion
            &&& deeds[1] is PointerMotion
            &&& deeds[1]->PointerMotion_serial == serial
            &&& deeds[1]->PointerMotion_time == motion_time(event)
            &&& focus_is_right(deeds[1]->under, after.windows, after.pointer, desktop.scale())
        }),
{
    let after = desktop.after_event(event, overlay_wants_pointer);
    assert(after.scale() == desktop.scale());
    lemma_focus_is_right(after.windows, after.pointer, desktop.scale());
}

/// The seat is told where the pointer is in logical coordinates: times the
/// scale, that is where the pointer is. The overlay is told the same place, cut
/// toward zero.
pub proof fn law_motion_is_told_in_logical_coordinates(
    desktop: Desktop,
    event: FloraInputEvent,
    serial: u32,
    overlay_wants_pointer: bool,
)
    requires
        is_motion(event),
        ({
            let pointer = desktop.after_event(event, overlay_wants_pointer).pointer;
            let scale = desktop.scale();
            &&& divides(scale, pointer.x)
            &&& divides(scale, pointer.y)
            &&& -(scale.value() * (0x7fff_0000 * pixel())) <= pointer.x.value() * pixel()
                <= scale.value() * (0x7fff_0000 * pixel())
            &&& -(scale.value() * (0x7fff_0000 * pixel())) <= pointer.y.value() * pixel()
                <= scale.value() * (0x7fff_0000 * pixel())
        }),
    ensures
        ({
            let pointer = desktop.after_event(event, overlay_wants_pointer).pointer;
            let deeds = desktop.event_deeds(event, serial, overlay_wants_pointer);
            let (at, location) = (deeds[0]->at, deeds[1]->location);
            let s = desktop.scale().value();
            &&& location.x is Finite
            &&& location.y is Finite
            &&& -(s * hair()) <= 2 * (location.x.value() * s - pointer.x.value() * pixel()) <= s
                * hair()
            &&& -(s * hair()) <= 2 * (location.y.value() * s - pointer.y.value() * pixel()) <= s
                * hair()
            &&& location.x.value() >= 0 ==> at.x * pixel() <= location.x.value() < at.x * pixel()
                + pixel()
            &&& location.y.value() >= 0 ==> at.y * pixel() <= location.y.value() < at.y * pixel()
                + pixel()
            &&& location.x.value() <= 0 ==> at.x * pixel() - pixel() < location.x.value() <= at.x
                * pixel()
            &&& location.y.value() <= 0 ==> at.y * pixel() - pixel() < location.y.value() <= at.y
                * pixel()
        }),
{
    let pointer = desktop.after_event(event, overlay_wants_pointer).pointer;
    let scale = desktop.scale();
    lemma_hair();
    lemma_quotient_near(pointer.x, scale);
    lemma_quotient_near(pointer.y, scale);
    let logical = pointer.to_logical(scale);
    lemma_logical_bound(logical.x.value(), pointer.x.value(), scale.value());
    lemma_logical_bound(logical.y.value(), pointer.y.value(), scale.value());
    lemma_truncated_toward_zero(logical.x);
    lemma_truncated_toward_zero(logical.y);
}

proof fn lemma_logical_bound(q: int, p: int, s: int)
    requires
        s > 0,
        -(s * (0x7fff_0000 * pixel())) <= p * pixel() <= s * (0x7fff_0000 * pixel()),
        -(s * hair()) <= 2 * (q * s - p * pixel()) <= s * hair(),
    ensures
        i32::MIN * pixel() <= q <= i32::MAX * pixel(),
{
    lemma_hair();
    let (u, h) = (pixel(), hair());
    let n = p * u;
    assert(-(0x7fff_0000 * u) - h <= q <= 0x7fff_0000 * u + h) by (nonlinear_arith)
        requires
            s > 0,
            -(s * (0x7fff_0000 * u)) <= n <= s * (0x7fff_0000 * u),
            -(s * h) <= 2 * (q * s - n) <= s * h,
            h > 0,
    ;
}

/// At scale one the seat is told exactly where the pointer is.
pub proof fn law_motion_is_told_as_it_is_at_scale_one(
    desktop: Desktop,
    event: FloraInputEvent,
    serial: u32,
    overlay_wants_pointer: bool,
)
    requires
        is_motion(event),
        desktop.scale() == double(1),
        ({
            let pointer = desktop.after_event(event, overlay_wants_pointer).pointer;
            pointer.x.valid(Format::Binary64) && pointer.y.valid(Format::Binary64)
        }),
    ensures
        desktop.event_deeds(event, serial, overlay_wants_pointer)[1]->location
            == desktop.after_event(event, overlay_wants_pointer).pointer,
{
    law_scale_one_is_identity(desktop.after_event(event, overlay_wants_pointer).pointer);
}

} // verus!
