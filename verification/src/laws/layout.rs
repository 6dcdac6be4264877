//! Where the title bars and their buttons lie.

use vstd::arithmetic::power2::*;
use vstd::prelude::*;

use crate::decorations::single;
use crate::geometry::{abs, divided, Point, Size};
use crate::ieee::exact::{
    lemma_integer_exact, lemma_integer_product, lemma_integer_quotient, lemma_integer_sum,
};
use crate::ieee::format::Format;
use crate::ieee::rounding::lemma_pow2_values;
use crate::laws::drawing::law_button_names_differ;
use crate::laws::measure::{lemma_truncated_toward_zero, pixel};
use crate::render::{bar_of, bar_tint, button_color, Bar, Knob};
use crate::state::Desktop;
use crate::window::Window;

verus! {

/// `q` is `a` divided by `scale`, cut toward zero.
pub open spec fn is_cut_quotient(a: int, scale: int, q: int) -> bool {
    &&& a >= 0 ==> 0 <= q && q * scale <= a < q * scale + scale
    &&& a <= 0 ==> q <= 0 && q * scale - scale < a <= q * scale
}

proof fn lemma_divided(a: int, scale: int)
    requires
        0 < scale,
    ensures
        is_cut_quotient(a, scale, divided(a, scale)),
        abs(divided(a, scale)) <= abs(a),
{
    let (m, q) = (abs(a), abs(a) / scale);
    vstd::arithmetic::div_mod::lemma_fundamental_div_mod(m, scale);
    vstd::arithmetic::div_mod::lemma_mod_bound(m, scale);
    vstd::arithmetic::div_mod::lemma_div_pos_is_pos(m, scale);
    assert(scale * q == q * scale) by (nonlinear_arith);
    assert((-q) * scale == -(q * scale)) by (nonlinear_arith);
    assert(q <= m) by (nonlinear_arith)
        requires
            q * scale <= m,
            scale >= 1,
            q >= 0,
    ;
    if a == 0 {
        assert(q == 0) by (nonlinear_arith)
            requires
                q * scale <= 0,
                q >= 0,
                scale > 0,
        ;
    }
}

/// A place on the grid is scaled down by dividing each of its coordinates.
pub proof fn law_places_scale_down(place: Point, scale: i32)
    requires
        0 < scale,
    ensures
        is_cut_quotient(place.x as int, scale as int, place.scaled_down(scale).x as int),
        is_cut_quotient(place.y as int, scale as int, place.scaled_down(scale).y as int),
{
    lemma_divided(place.x as int, scale as int);
    lemma_divided(place.y as int, scale as int);
}

/// A size that fits when scaled up is the same scaled up and down again.
pub proof fn law_sizes_scale_up_and_down(size: Size, scale: i32)
    requires
        0 < scale,
        i32::MIN <= size.w * scale <= i32::MAX,
        i32::MIN <= size.h * scale <= i32::MAX,
    ensures
        size.scaled_up(scale).w == size.w * scale,
        size.scaled_up(scale).h == size.h * scale,
        size.scaled_up(scale).scaled_down(scale) == size,
{
    lemma_divided_back(size.w as int, scale as int);
    lemma_divided_back(size.h as int, scale as int);
}

proof fn lemma_divided_back(n: int, scale: int)
    requires
        0 < scale,
    ensures
        divided(n * scale, scale) == n,
{
    lemma_divided(n * scale, scale);
    let q = divided(n * scale, scale);
    assert(n >= 0 ==> n * scale >= 0) by (nonlinear_arith)
        requires
            scale > 0,
    ;
    assert(n <= 0 ==> n * scale <= 0) by (nonlinear_arith)
        requires
            scale > 0,
    ;
    if n >= 0 {
        assert(q == n) by (nonlinear_arith)
            requires
                q * scale <= n * scale < q * scale + scale,
                scale > 0,
        ;
    } else {
        assert(q == n) by (nonlinear_arith)
            requires
                q * scale - scale < n * scale <= q * scale,
                scale > 0,
        ;
    }
}

/// The button lies so many pixels from the corner of the bar.
pub open spec fn button_lies_at(knob: Knob, x: int, y: int) -> bool {
    &&& knob.x == single(x)
    &&& knob.y == single(y)
    &&& knob.radius == single(6)
    &&& knob.side == single(12)
}

/// A place whose coordinates have so few digits that reckoning with them is
/// exact.
pub open spec fn is_moderate(place: Point) -> bool {
    -0x40_0000 <= place.x <= 0x40_0000 && -0x40_0000 <= place.y <= 0x40_0000
}

/// The bar lies at the corner of its window, in logical pixels, and is thirty
/// rows high. Its three buttons have their middles ten, thirty and fifty columns
/// from its left end, and fifteen rows below its top.
pub proof fn law_buttons_lie_on_their_bar(window: Window, index: int, scale: i32, focus: Option<u64>)
    requires
        0 < scale,
        is_moderate(window.location.scaled_down(scale)),
    ensures
        ({
            let bar = bar_of(window, index, scale, focus);
            let corner = window.location.scaled_down(scale);
            &&& bar.x == single(corner.x as int)
            &&& bar.y == single(corner.y as int)
            &&& bar.height == single(30)
            &&& bar.window == index
            &&& bar.focused <==> focus == Some(window.surface)
            &&& bar.buttons.len() == 3
            &&& forall|i: int|
                0 <= i < 3 ==> button_lies_at(
                    #[trigger] bar.buttons[i],
                    corner.x + 10 + 20 * i,
                    corner.y + 15,
                )
        }),
{
    let format = Format::Binary32;
    lemma_pow2_values();
    let bar = bar_of(window, index, scale, focus);
    let corner = window.location.scaled_down(scale);
    lemma_integer_sum(format, corner.x as int, 10);
    lemma_integer_product(format, 0, 20);
    lemma_integer_product(format, 1, 20);
    lemma_integer_product(format, 2, 20);
    lemma_integer_product(format, 6, 2);
    lemma_integer_sum(format, corner.x + 10, 0);
    lemma_integer_sum(format, corner.x + 10, 20);
    lemma_integer_sum(format, corner.x + 10, 40);
    lemma_integer_quotient(format, 15, 2);
    lemma_integer_sum(format, corner.y as int, 15);
    assert forall|i: int| 0 <= i < 3 implies button_lies_at(
        #[trigger] bar.buttons[i],
        corner.x + 10 + 20 * i,
        corner.y + 15,
    ) by {
        assert(i == 0 || i == 1 || i == 2);
    }
}

/// At scale one the buttons lie over the window itself: on its bar, ten, thirty
/// and fifty columns from its left edge and halfway down.
pub proof fn law_buttons_lie_over_their_window(window: Window, index: int, focus: Option<u64>)
    requires
        is_moderate(window.location),
    ensures
        ({
            let bar = bar_of(window, index, 1, focus);
            &&& bar.x == single(window.location.x as int)
            &&& bar.y == single(window.location.y as int)
            &&& bar.width == single(window.client_size().w as int)
            &&& bar.buttons.len() == 3
            &&& forall|i: int|
                0 <= i < 3 ==> button_lies_at(
                    #[trigger] bar.buttons[i],
                    window.location.x + 10 + 20 * i,
                    window.location.y + 15,
                )
        }),
{
    law_places_scale_down(window.location, 1);
    law_sizes_scale_up_and_down(window.client_size(), 1);
    law_buttons_lie_on_their_bar(window, index, 1, focus);
}

/// A button takes clicks inside the rows of its bar and right of its left end.
pub open spec fn clicks_inside(knob: Knob, bar: Bar) -> bool {
    &&& 2 * bar.x.value() <= 2 * knob.x.value() - knob.side.value()
    &&& 2 * bar.y.value() <= 2 * knob.y.value() - knob.side.value()
    &&& 2 * knob.y.value() + knob.side.value() <= 2 * (bar.y.value() + bar.height.value())
}

/// The squares in which the buttons take clicks lie in the rows of the bar, each
/// holds the disc that is drawn, and no two overlap.
pub proof fn law_buttons_take_clicks_on_their_bar(
    window: Window,
    index: int,
    scale: i32,
    focus: Option<u64>,
)
    requires
        0 < scale,
        is_moderate(window.location.scaled_down(scale)),
    ensures
        ({
            let bar = bar_of(window, index, scale, focus);
            &&& bar.buttons.len() == 3
            &&& forall|i: int|
                0 <= i < 3 ==> {
                    &&& clicks_inside(#[trigger] bar.buttons[i], bar)
                    &&& bar.buttons[i].side.value() == 2 * bar.buttons[i].radius.value()
                }
            &&& forall|i: int, j: int|
                0 <= i < j < 3 ==> (#[trigger] bar.buttons[i]).x.value() + bar.buttons[i].side.value()
                    <= (#[trigger] bar.buttons[j]).x.value()
        }),
{
    let format = Format::Binary32;
    lemma_pow2_values();
    lemma_pow2_pos(149);
    let u = pow2(149) as int;
    let bar = bar_of(window, index, scale, focus);
    let corner = window.location.scaled_down(scale);
    law_buttons_lie_on_their_bar(window, index, scale, focus);
    let (x, y) = (corner.x as int, corner.y as int);
    lemma_integer_exact(format, x);
    lemma_integer_exact(format, y);
    lemma_integer_exact(format, 30);
    lemma_integer_exact(format, 6);
    lemma_integer_exact(format, 12);
    lemma_integer_exact(format, y + 15);
    lemma_integer_exact(format, x + 10);
    lemma_integer_exact(format, x + 30);
    lemma_integer_exact(format, x + 50);
    assert((y + 15) * u == y * u + 15 * u) by (nonlinear_arith);
    assert((x + 10) * u == x * u + 10 * u) by (nonlinear_arith);
    assert((x + 30) * u == x * u + 30 * u) by (nonlinear_arith);
    assert((x + 50) * u == x * u + 50 * u) by (nonlinear_arith);
    let (a, b, c) = (bar.buttons[0], bar.buttons[1], bar.buttons[2]);
    assert(button_lies_at(a, x + 10, y + 15));
    assert(button_lies_at(b, x + 30, y + 15));
    assert(button_lies_at(c, x + 50, y + 15));
    assert forall|i: int| 0 <= i < 3 implies {
        &&& clicks_inside(#[trigger] bar.buttons[i], bar)
        &&& bar.buttons[i].side.value() == 2 * bar.buttons[i].radius.value()
    } by {
        assert(i == 0 || i == 1 || i == 2);
    }
    assert forall|i: int, j: int| 0 <= i < j < 3 implies (#[trigger] bar.buttons[i]).x.value()
        + bar.buttons[i].side.value() <= (#[trigger] bar.buttons[j]).x.value() by {
        assert((i == 0 && j == 1) || (i == 0 && j == 2) || (i == 1 && j == 2));
    }
}

/// The scale of the overlay is the scale of the output, cut off.
pub proof fn law_overlay_scale_is_cut_off(desktop: Desktop)
    requires
        desktop.scale() is Finite,
        0 <= desktop.scale().value() <= i32::MAX * pixel(),
    ensures
        0 <= desktop.whole_scale(),
        desktop.whole_scale() * pixel() <= desktop.scale().value() < desktop.whole_scale() * pixel()
            + pixel(),
{
    let u = pixel();
    lemma_pow2_pos(1074);
    assert(i32::MIN * u <= 0) by (nonlinear_arith)
        requires
            u > 0,
    ;
    lemma_truncated_toward_zero(desktop.scale());
}

/// There is one bar for each window, in the order of the windows, at the corner
/// of its window and as wide as its client area, and the one of the window with
/// the keyboard focus is shown so.
pub proof fn law_every_window_has_its_bar(desktop: Desktop, focus: Option<u64>, index: int)
    requires
        0 < desktop.whole_scale(),
        0 <= index < desktop.windows.len(),
        is_moderate(desktop.windows[index].location.scaled_down(desktop.whole_scale())),
        ({
            let size = desktop.windows[index].client_size();
            &&& i32::MIN <= size.w * desktop.whole_scale() <= i32::MAX
            &&& i32::MIN <= size.h * desktop.whole_scale() <= i32::MAX
        }),
    ensures
        ({
            let bars = desktop.bars(focus);
            let window = desktop.windows[index];
            let corner = window.location.scaled_down(desktop.whole_scale());
            &&& bars.len() == desktop.windows.len()
            &&& bars[index].window == index
            &&& bars[index].x == single(corner.x as int)
            &&& bars[index].y == single(corner.y as int)
            &&& bars[index].width == single(window.client_size().w as int)
            &&& bars[index].height == single(30)
            &&& bars[index].focused <==> focus == Some(window.surface)
            &&& bars[index].buttons.len() == 3
            &&& forall|i: int|
                0 <= i < 3 ==> button_lies_at(
                    #[trigger] bars[index].buttons[i],
                    corner.x + 10 + 20 * i,
                    corner.y + 15,
                )
        }),
{
    let window = desktop.windows[index];
    law_buttons_lie_on_their_bar(window, index, desktop.whole_scale(), focus);
    law_sizes_scale_up_and_down(window.client_size(), desktop.whole_scale());
}

/// At every positive scale every window can be laid out, and at none can one
/// where nothing divides; a window that is not at the very bottom of the reach
/// of pixels can be drawn.
pub proof fn law_windows_can_be_laid_out(desktop: Desktop)
    ensures
        0 < desktop.whole_scale() ==> desktop.scalable(),
        desktop.whole_scale() == 0 && desktop.windows.len() > 0 ==> !desktop.scalable(),
        (forall|i: int|
            0 <= i < desktop.windows.len() ==> (#[trigger] desktop.windows[i]).location.y
                <= 0x7fff_0000 && desktop.windows[i].client_size().w >= 0) ==> desktop.drawable(),
{
    if desktop.whole_scale() == 0 && desktop.windows.len() > 0 {
        assert(!crate::render::scalable(desktop.windows[0], 0));
    }
}

/// The bar with the focus is lighter and less transparent; both are gray. The
/// three buttons differ in color.
pub proof fn law_tints_tell_the_focus()
    ensures
        ({
            let ((a, b, c, d), (e, f, g, h)) = (bar_tint(true), bar_tint(false));
            &&& a == b && b == c && e == f && f == g
            &&& a > e && d > h
        }),
        button_color(0) != button_color(1),
        button_color(1) != button_color(2),
        button_color(0) != button_color(2),
{
    assert(button_color(0)[1] != button_color(1)[1]);
    assert(button_color(1)[0] != button_color(2)[0]);
    assert(button_color(0)[0] != button_color(2)[0]);
}

/// No two buttons of a frame have the same name.
pub proof fn law_buttons_of_a_frame_differ(
    desktop: Desktop,
    focus: Option<u64>,
    bar: int,
    button: int,
    other_bar: int,
    other_button: int,
)
    requires
        0 <= bar < desktop.windows.len(),
        0 <= other_bar < desktop.windows.len(),
        0 <= button < 3,
        0 <= other_button < 3,
        desktop.bars(focus)[bar].buttons[button].id
            == desktop.bars(focus)[other_bar].buttons[other_button].id,
    ensures
        bar == other_bar,
        button == other_button,
{
    law_button_names_differ(bar as nat, button as nat, other_bar as nat, other_button as nat);
}

} // verus!
