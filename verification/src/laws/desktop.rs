//! What holds of the desktop, whatever the input.

use vstd::arithmetic::power2::*;
use vstd::prelude::*;

use crate::geometry::{double, Place, Point, Size};
use crate::ieee::arith::{
    difference, lemma_negation, lemma_zero_valid, negation, rounded_value,
};
use crate::ieee::convert::{nearest_i32, saturated_i32};
use crate::ieee::exact::{
    lemma_integer_difference, lemma_integer_exact, lemma_over_one, lemma_rounding_error,
};
use crate::ieee::format::{Float, Format};
use crate::ieee::order::at_most;
use crate::ieee::rounding::lemma_pow2_values;
use crate::input::{brought_to_top, clamped, client_under, region_of, window_under, FloraInputEvent};
use crate::state::Desktop;
use crate::window::{HitRegion, Window};

verus! {

/// A coordinate lies on an axis of the given length.
pub open spec fn on_axis(a: Float, length: i32) -> bool {
    at_most(double(0), a) && at_most(a, double(length as int))
}

pub open spec fn is_motion(event: FloraInputEvent) -> bool {
    event is PointerMotion || event is PointerMotionAbsolute
}

/// However the pointer is moved, it stays on the output.
pub proof fn law_pointer_stays_on_output(
    desktop: Desktop,
    event: FloraInputEvent,
    overlay_wants_pointer: bool,
    size: Size,
)
    requires
        is_motion(event),
        desktop.mode() == Some(size),
        0 <= size.w,
        0 <= size.h,
    ensures
        ({
            let pointer = desktop.after_event(event, overlay_wants_pointer).pointer;
            on_axis(pointer.x, size.w) && on_axis(pointer.y, size.h)
        }),
{
    let target = match event {
        FloraInputEvent::PointerMotion { delta, time } => desktop.pointer.plus(delta@),
        FloraInputEvent::PointerMotionAbsolute { location, time } => desktop.absolute_target(
            location@,
        ),
        _ => desktop.pointer,
    };
    lemma_clamped_on_axis(target.x, size.w);
    lemma_clamped_on_axis(target.y, size.h);
}

proof fn lemma_clamped_on_axis(a: Float, length: i32)
    requires
        0 <= length,
    ensures
        on_axis(clamped(a, length), length),
{
    lemma_pow2_values();
    lemma_integer_exact(Format::Binary64, 0);
    lemma_integer_exact(Format::Binary64, length as int);
    crate::window::lemma_integer_order(0, length as int);
}

/// A pointer on the output is left where it is.
pub proof fn law_clamping_keeps_pointer_on_output(a: Float, length: i32)
    requires
        on_axis(a, length),
    ensures
        clamped(a, length) == a,
{
    lemma_pow2_values();
    lemma_integer_exact(Format::Binary64, 0);
    lemma_integer_exact(Format::Binary64, length as int);
}

/// Every input event asks for a frame.
pub proof fn law_event_requests_redraw(
    desktop: Desktop,
    event: FloraInputEvent,
    overlay_wants_pointer: bool,
)
    ensures
        desktop.after_event(event, overlay_wants_pointer).needs_redraw,
{
}

/// The window found under the pointer is hit, and no window above it is; none
/// is found only where none is hit.
pub proof fn law_window_under_is_topmost(windows: Seq<Window>, pointer: Place, scale: Float)
    ensures
        match window_under(windows, pointer, scale) {
            Some(index) => {
                &&& 0 <= index < windows.len()
                &&& region_of(windows[index], pointer, scale) != HitRegion::Outside
                &&& forall|i: int|
                    index < i < windows.len() ==> region_of(#[trigger] windows[i], pointer, scale)
                        == HitRegion::Outside
            },
            None => forall|i: int|
                0 <= i < windows.len() ==> region_of(#[trigger] windows[i], pointer, scale)
                    == HitRegion::Outside,
        },
    decreases windows.len(),
{
    if windows.len() > 0 {
        let below = windows.drop_last();
        law_window_under_is_topmost(below, pointer, scale);
        assert forall|i: int| 0 <= i < below.len() implies #[trigger] windows[i] == below[i] by {}
    }
}

/// The client area found under the pointer belongs to the topmost window whose
/// client area is hit, at the place where it is hit.
pub proof fn law_client_under_is_topmost(windows: Seq<Window>, pointer: Place, scale: Float)
    ensures
        match client_under(windows, pointer, scale) {
            Some(focus) => exists|index: int|
                {
                    &&& 0 <= index < windows.len()
                    &&& (#[trigger] windows[index]).surface == focus.surface
                    &&& region_of(windows[index], pointer, scale) == (HitRegion::Client {
                        local_x: focus.local.x,
                        local_y: focus.local.y,
                    })
                    &&& forall|i: int|
                        index < i < windows.len() ==> !(region_of(
                            #[trigger] windows[i],
                            pointer,
                            scale,
                        ) is Client)
                },
            None => forall|i: int|
                0 <= i < windows.len() ==> !(region_of(#[trigger] windows[i], pointer, scale)
                    is Client),
        },
    decreases windows.len(),
{
    if windows.len() > 0 {
        let below = windows.drop_last();
        law_client_under_is_topmost(below, pointer, scale);
        assert forall|i: int| 0 <= i < below.len() implies #[trigger] windows[i] == below[i] by {}
        let last = windows.len() - 1;
        if region_of(windows[last], pointer, scale) is Client {
            assert(windows[last].surface == client_under(windows, pointer, scale)->0.surface);
        } else if client_under(windows, pointer, scale) is Some {
            let focus = client_under(windows, pointer, scale)->0;
            let index = choose|index: int|
                {
                    &&& 0 <= index < below.len()
                    &&& (#[trigger] below[index]).surface == focus.surface
                    &&& region_of(below[index], pointer, scale) == (HitRegion::Client {
                        local_x: focus.local.x,
                        local_y: focus.local.y,
                    })
                    &&& forall|i: int|
                        index < i < below.len() ==> !(region_of(
                            #[trigger] below[i],
                            pointer,
                            scale,
                        ) is Client)
                };
            assert(windows[index] == below[index]);
            assert forall|i: int| index < i < windows.len() implies !(region_of(
                #[trigger] windows[i],
                pointer,
                scale,
            ) is Client) by {
                if i < below.len() {
                    assert(windows[i] == below[i]);
                }
            }
        }
    }
}

/// Bringing a window to the top neither adds nor loses one, puts it last, and
/// keeps the order of the others.
pub proof fn law_raising_keeps_windows(windows: Seq<Window>, index: int)
    requires
        0 <= index < windows.len(),
    ensures
        brought_to_top(windows, index).to_multiset() == windows.to_multiset(),
        brought_to_top(windows, index).len() == windows.len(),
        brought_to_top(windows, index).last() == windows[index],
        brought_to_top(windows, index).drop_last() == windows.remove(index),
{
    broadcast use vstd::seq_lib::group_to_multiset_ensures;

    let rest = windows.remove(index);
    let raised = brought_to_top(windows, index);
    assert(raised.drop_last() =~= rest);
    assert(rest.to_multiset() =~= windows.to_multiset().remove(windows[index]));
    assert(raised.to_multiset() =~= rest.to_multiset().insert(windows[index]));
    assert(windows.to_multiset().count(windows[index]) > 0) by {
        assert(windows.contains(windows[index]));
    }
    assert(raised.to_multiset() =~= windows.to_multiset());
}

/// Input never loses a window nor makes one, and keeps their surfaces.
pub proof fn law_input_keeps_surfaces(
    desktop: Desktop,
    event: FloraInputEvent,
    overlay_wants_pointer: bool,
)
    ensures
        surfaces(desktop.after_event(event, overlay_wants_pointer).windows).to_multiset()
            == surfaces(desktop.windows).to_multiset(),
{
    let windows = desktop.windows;
    let after = desktop.after_event(event, overlay_wants_pointer).windows;
    if event is PointerButton {
        match window_under(windows, desktop.pointer, desktop.scale()) {
            Some(index) => {
                law_window_under_is_topmost(windows, desktop.pointer, desktop.scale());
                if after != windows {
                    lemma_surfaces_raised(windows, index);
                }
            },
            None => {},
        }
    } else {
        assert(surfaces(after) =~= surfaces(windows));
    }
}

/// Keys of the surfaces, from the bottom to the top.
pub open spec fn surfaces(windows: Seq<Window>) -> Seq<u64> {
    windows.map_values(|window: Window| window.surface)
}

proof fn lemma_surfaces_raised(windows: Seq<Window>, index: int)
    requires
        0 <= index < windows.len(),
    ensures
        surfaces(brought_to_top(windows, index)).to_multiset() == surfaces(windows).to_multiset(),
{
    broadcast use vstd::seq_lib::group_to_multiset_ensures;

    let keys = surfaces(windows);
    let key = windows[index].surface;
    let rest = keys.remove(index);
    assert(surfaces(brought_to_top(windows, index)) =~= rest.push(key));
    assert(keys[index] == key);
    assert(keys.contains(key));
    assert(rest.to_multiset() =~= keys.to_multiset().remove(key));
    assert(rest.push(key).to_multiset() =~= keys.to_multiset());
}

/// A drag is always of a window that is there.
pub proof fn law_drag_names_a_window(
    desktop: Desktop,
    event: FloraInputEvent,
    overlay_wants_pointer: bool,
)
    requires
        desktop.grab_in_range(),
    ensures
        desktop.after_event(event, overlay_wants_pointer).grab_in_range(),
        Desktop::initial().grab_in_range(),
{
    law_window_under_is_topmost(desktop.windows, desktop.pointer, desktop.scale());
}

/// After a button is released, moving the pointer moves no window until one is
/// pressed again.
pub proof fn law_release_ends_drag(
    desktop: Desktop,
    button: u32,
    time: u32,
    event: FloraInputEvent,
    overlay_wants_pointer: bool,
)
    requires
        is_motion(event),
    ensures
        ({
            let released = desktop.after_event(
                FloraInputEvent::PointerButton { button, pressed: false, time },
                false,
            );
            &&& released.grab is None
            &&& released.windows == desktop.windows
            &&& released.after_event(event, overlay_wants_pointer).windows == desktop.windows
            &&& released.after_event(event, overlay_wants_pointer).grab is None
        }),
{
}

/// Pressing on a window brings it to the top; pressing on its bar makes it the
/// one that is dragged.
pub proof fn law_press_raises_window(desktop: Desktop, scale: Float, index: int)
    requires
        window_under(desktop.windows, desktop.pointer, scale) == Some(index),
    ensures
        desktop.pressed(scale).windows.last() == desktop.windows[index],
        region_of(desktop.windows[index], desktop.pointer, scale) == HitRegion::TitleBar
            ==> desktop.pressed(scale).grab == Some(
            (
                desktop.windows.len() - 1,
                desktop.pointer.minus(Place::of(desktop.windows[index].location)),
            ),
        ),
{
    law_window_under_is_topmost(desktop.windows, desktop.pointer, scale);
    law_raising_keeps_windows(desktop.windows, index);
}

/// A finite coordinate of magnitude at most `2^51`.
pub open spec fn moderate(a: Float) -> bool {
    &&& a is Finite
    &&& a.valid(Format::Binary64)
    &&& -pow2(1125) <= a.value() <= pow2(1125)
}

/// Taking hold of a bar does not move the window: as long as the pointer
/// stays, so does the window.
pub proof fn law_grab_does_not_move_window(desktop: Desktop, scale: Float, index: int)
    requires
        window_under(desktop.windows, desktop.pointer, scale) == Some(index),
        region_of(desktop.windows[index], desktop.pointer, scale) == HitRegion::TitleBar,
        moderate(desktop.pointer.x),
        moderate(desktop.pointer.y),
    ensures
        desktop.pressed(scale).with_dragged_window() == desktop.pressed(scale),
{
    law_window_under_is_topmost(desktop.windows, desktop.pointer, scale);
    law_raising_keeps_windows(desktop.windows, index);
    let held = desktop.pressed(scale);
    let window = desktop.windows[index];
    lemma_there_and_back(desktop.pointer.x, window.location.x);
    lemma_there_and_back(desktop.pointer.y, window.location.y);
    assert(held.windows[held.windows.len() - 1] == window);
    assert(held.with_dragged_window().windows =~= held.windows);
}

/// Subtracting an integer and subtracting the result leads back to the integer.
proof fn lemma_there_and_back(a: Float, n: i32)
    requires
        moderate(a),
    ensures
        nearest_i32(
            Format::Binary64,
            difference(Format::Binary64, a, difference(Format::Binary64, a, double(n as int))),
        ) == n,
{
    let format = Format::Binary64;
    let unit = pow2(1074);
    let b = double(n as int);
    lemma_pow2_values();
    lemma_integer_exact(format, n as int);
    lemma_pow2_pos(1074);
    lemma_pow2_unfold(1126);
    lemma_pow2_adds(31, 1074);
    lemma_pow2_strictly_increases(1105, 1125);
    lemma_magnitude(n as int, 0x8000_0000, unit);
    let there = difference(format, a, b);
    lemma_negation(format, b);
    lemma_value_error(format, a.value() - n * unit, a.is_negative() && negation(b).is_negative(), 1073);
    lemma_negation(format, there);
    let back = difference(format, a, there);
    let exact = a.value() - there.value();
    lemma_pow2_unfold(1074);
    lemma_pow2_unfold(1073);
    lemma_pow2_unfold(1106);
    lemma_pow2_strictly_increases(1074, 1105);
    lemma_value_error(format, exact, a.is_negative() && negation(there).is_negative(), 1053);
    lemma_pow2_strictly_increases(1053, 1072);
    lemma_nearest_close(back, n as int);
}

proof fn lemma_magnitude(n: int, bound: int, unit: nat)
    requires
        -bound <= n <= bound,
    ensures
        -(bound * unit) <= n * unit <= bound * unit,
{
    assert(-(bound * unit) <= n * unit <= bound * unit) by (nonlinear_arith)
        requires
            -bound <= n <= bound,
    ;
}

/// The value of a rounding is off by at most half of `2^k`.
pub proof fn lemma_value_error(format: Format, value: int, zero_negative: bool, k: nat)
    requires
        -pow2(format.precision() + k) < value < pow2(format.precision() + k),
        k < format.max_scale(),
    ensures
        rounded_value(format, value, zero_negative) is Finite,
        rounded_value(format, value, zero_negative).valid(format),
        -pow2(k) <= 2 * (rounded_value(format, value, zero_negative).value() - value) <= pow2(k),
{
    lemma_zero_valid(format, zero_negative);
    lemma_pow2_pos(k);
    if value < 0 {
        lemma_rounding_error(format, true, (-value) as nat, k);
    } else if value > 0 {
        lemma_rounding_error(format, false, value as nat, k);
    }
}

/// A number less than half away from an integer rounds to it.
proof fn lemma_nearest_close(a: Float, n: int)
    requires
        a is Finite,
        i32::MIN <= n <= i32::MAX,
        -pow2(1074) < 2 * (a.value() - n * pow2(1074)) < pow2(1074),
    ensures
        nearest_i32(Format::Binary64, a) == n,
{
    let unit = pow2(1074);
    lemma_pow2_pos(1074);
    let m = if n < 0 {
        -n
    } else {
        n
    };
    assert((-n) * unit == -(n * unit)) by (nonlinear_arith);
    if n > 0 {
        assert(n * unit >= unit) by (nonlinear_arith)
            requires
                n >= 1,
        ;
    } else if n < 0 {
        assert((-n) * unit >= unit) by (nonlinear_arith)
            requires
                -n >= 1,
        ;
    } else {
        assert(0 * unit == 0);
    }
    let rest = 2 * a.units() + unit - 2 * (m * unit);
    assert(0 <= rest < 2 * unit);
    assert(2 * a.units() + unit == m * (2 * unit) + rest) by (nonlinear_arith)
        requires
            rest == 2 * a.units() + unit - 2 * (m * unit),
    ;
    vstd::arithmetic::div_mod::lemma_fundamental_div_mod_converse(
        (2 * a.units() + unit) as int,
        (2 * unit) as int,
        m,
        rest,
    );
}

/// On whole pixels a dragged window moves by as much as the pointer.
pub proof fn law_drag_follows_pointer(
    desktop: Desktop,
    scale: Float,
    index: int,
    from: Point,
    to: Point,
)
    requires
        desktop.pointer == Place::of(from),
        window_under(desktop.windows, desktop.pointer, scale) == Some(index),
        region_of(desktop.windows[index], desktop.pointer, scale) == HitRegion::TitleBar,
    ensures
        ({
            let held = desktop.pressed(scale);
            let moved = Desktop { pointer: Place::of(to), ..held }.with_dragged_window();
            let start = desktop.windows[index].location;
            &&& moved.windows.last().location.x == saturated_i32(start.x + (to.x - from.x))
            &&& moved.windows.last().location.y == saturated_i32(start.y + (to.y - from.y))
            &&& moved.windows.drop_last() == held.windows.drop_last()
        }),
{
    law_window_under_is_topmost(desktop.windows, desktop.pointer, scale);
    law_raising_keeps_windows(desktop.windows, index);
    let held = desktop.pressed(scale);
    let moved = Desktop { pointer: Place::of(to), ..held }.with_dragged_window();
    let start = desktop.windows[index].location;
    lemma_pixel_drag(from.x as int, to.x as int, start.x as int);
    lemma_pixel_drag(from.y as int, to.y as int, start.y as int);
    assert(moved.windows.drop_last() =~= held.windows.drop_last());
}

pub proof fn lemma_pixel_drag(from: int, to: int, start: int)
    requires
        i32::MIN <= from <= i32::MAX,
        i32::MIN <= to <= i32::MAX,
        i32::MIN <= start <= i32::MAX,
    ensures
        nearest_i32(
            Format::Binary64,
            difference(
                Format::Binary64,
                double(to),
                difference(Format::Binary64, double(from), double(start)),
            ),
        ) == saturated_i32(start + (to - from)),
{
    let format = Format::Binary64;
    lemma_pow2_values();
    lemma_integer_difference(format, from, start);
    lemma_integer_difference(format, to, from - start);
    let n = to - (from - start);
    lemma_integer_exact(format, n);
    let a = double(n);
    let unit = pow2(1074);
    lemma_pow2_pos(1074);
    let m = if n < 0 {
        -n
    } else {
        n
    };
    assert((-n) * unit == -(n * unit)) by (nonlinear_arith);
    assert(2 * (m * unit) + unit == m * (2 * unit) + unit) by (nonlinear_arith);
    vstd::arithmetic::div_mod::lemma_fundamental_div_mod_converse(
        (2 * a.units() + unit) as int,
        (2 * unit) as int,
        m,
        unit as int,
    );
}

/// At scale one, logical and physical coordinates are the same.
pub proof fn law_scale_one_is_identity(place: Place)
    requires
        place.x.valid(Format::Binary64),
        place.y.valid(Format::Binary64),
    ensures
        place.to_logical(double(1)) == place,
{
    lemma_over_one(Format::Binary64, place.x);
    lemma_over_one(Format::Binary64, place.y);
}

} // verus!
