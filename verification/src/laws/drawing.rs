//! What holds between what is drawn and what the pointer hits.

use vstd::prelude::*;

use crate::decorations::single;
use crate::geometry::{double, Place, Point, Rect, Size};
use crate::ieee::exact::lemma_integer_exact;
use crate::ieee::format::Format;
use crate::ieee::rounding::lemma_pow2_values;
use crate::input::region_of;
use crate::laws::desktop::law_scale_one_is_identity;
use crate::render::{
    bar_of, button_name, decimal, drawable, last_to_close, stacked_elements, window_elements, Element,
};
use crate::state::Desktop;
use crate::window::{law_hit_test_on_pixels, HitRegion, Window, TITLE_BAR_HEIGHT};

verus! {

/// A pixel lies in a rectangle.
pub open spec fn covers(rect: Rect, pixel: Point) -> bool {
    &&& rect.location.x <= pixel.x < rect.location.x + rect.size.w
    &&& rect.location.y <= pixel.y < rect.location.y + rect.size.h
}

/// Where the ground of the bar of a window is drawn.
pub open spec fn bar_rect(window: Window) -> Rect {
    Rect {
        location: window.location,
        size: Size { w: window.client_size().w, h: TITLE_BAR_HEIGHT },
    }
}

/// Where the surface of a window is drawn.
pub open spec fn surface_rect(window: Window) -> Rect {
    Rect {
        location: Point {
            x: window.location.x,
            y: (window.location.y + TITLE_BAR_HEIGHT) as i32,
        },
        size: window.client_size(),
    }
}

/// At scale one a pixel hits the bar exactly where the ground of the bar is
/// drawn, and the client area exactly where the surface is drawn, at the same
/// place of it.
pub proof fn law_hit_is_what_is_drawn(window: Window, pixel: Point)
    requires
        drawable(window),
    ensures
        window_elements(window)[0] == (Element::Surface {
            surface: window.surface,
            location: surface_rect(window).location,
        }),
        window_elements(window)[1] == (Element::BarGround {
            surface: window.surface,
            rect: bar_rect(window),
        }),
        region_of(window, Place::of(pixel), double(1)) == if covers(bar_rect(window), pixel) {
            HitRegion::TitleBar
        } else if covers(surface_rect(window), pixel) {
            HitRegion::Client {
                local_x: (pixel.x - surface_rect(window).location.x) as i32,
                local_y: (pixel.y - surface_rect(window).location.y) as i32,
            }
        } else {
            HitRegion::Outside
        },
{
    lemma_place_valid(pixel);
    lemma_place_valid(window.location);
    law_scale_one_is_identity(Place::of(pixel));
    law_scale_one_is_identity(Place::of(window.location));
    law_hit_test_on_pixels(pixel, window.location, window.client_size());
}

proof fn lemma_place_valid(p: Point)
    ensures
        Place::of(p).x.valid(Format::Binary64),
        Place::of(p).y.valid(Format::Binary64),
{
    lemma_pow2_values();
    lemma_integer_exact(Format::Binary64, p.x as int);
    lemma_integer_exact(Format::Binary64, p.y as int);
}

/// At scale one the bar on the overlay lies where its ground is drawn.
pub proof fn law_overlay_bar_lies_on_its_ground(window: Window, index: int, focus: Option<u64>)
    ensures
        ({
            let bar = bar_of(window, index, 1, focus);
            let ground = bar_rect(window);
            &&& bar.x == single(ground.location.x as int)
            &&& bar.y == single(ground.location.y as int)
            &&& bar.width == single(ground.size.w as int)
            &&& bar.height == single(ground.size.h as int)
        }),
{
    lemma_over_one(window.location.x as int);
    lemma_over_one(window.location.y as int);
    lemma_over_one(window.client_size().w as int);
    lemma_over_one(window.client_size().h as int);
}

proof fn lemma_over_one(n: int)
    ensures
        crate::geometry::divided(n, 1) == n,
{
    assert(crate::geometry::abs(n) / 1 == crate::geometry::abs(n));
}

/// Windows are drawn the topmost first: the elements of a window stand before
/// those of every window below it.
pub proof fn law_topmost_is_drawn_first(windows: Seq<Window>, index: int)
    requires
        0 <= index < windows.len(),
    ensures
        stacked_elements(windows).len() == 2 * windows.len(),
        ({
            let at = 2 * (windows.len() - 1 - index);
            stacked_elements(windows).subrange(at, at + 2) == window_elements(windows[index])
        }),
    decreases windows.len(),
{
    let below = windows.drop_last();
    let top = window_elements(windows.last());
    let all = stacked_elements(windows);
    lemma_stacked_len(windows);
    lemma_stacked_len(below);
    let at = 2 * (windows.len() - 1 - index);
    if index == windows.len() - 1 {
        assert(all.subrange(at, at + 2) =~= top);
    } else {
        law_topmost_is_drawn_first(below, index);
        assert(below[index] == windows[index]);
        assert(all.subrange(at, at + 2) =~= stacked_elements(below).subrange(at - 2, at));
    }
}

proof fn lemma_stacked_len(windows: Seq<Window>)
    ensures
        stacked_elements(windows).len() == 2 * windows.len(),
    decreases windows.len(),
{
    if windows.len() > 0 {
        lemma_stacked_len(windows.drop_last());
    }
}

/// A pointer that stays has the cursor drawn anew at most once: once its place
/// is noted, it has not moved.
pub proof fn law_still_cursor_is_not_redrawn(desktop: Desktop)
    requires
        !(desktop.pointer.x is NotANumber),
        !(desktop.pointer.y is NotANumber),
    ensures
        !desktop.with_cursor_noted().cursor_moved(),
        desktop.with_cursor_noted().with_cursor_noted() == desktop.with_cursor_noted(),
{
}

/// Drawing a frame leaves the desktop as it is, but for where the cursor was
/// last drawn.
pub proof fn law_drawing_keeps_the_desktop(desktop: Desktop)
    ensures
        desktop.with_cursor_noted() == (Desktop {
            last_pointer: desktop.with_cursor_noted().last_pointer,
            ..desktop
        }),
{
}

/// Only one window can be the one to close, so that the clicks settle it.
pub proof fn law_clicks_settle_what_is_closed(clicked: Seq<[bool; 3]>, index: int, other: int)
    requires
        last_to_close(clicked, index),
        last_to_close(clicked, other),
    ensures
        index == other,
{
}

/// No two buttons have the same name.
pub proof fn law_button_names_differ(window: nat, button: nat, other: nat, other_button: nat)
    requires
        button < 3,
        other_button < 3,
        button_name(window, button) == button_name(other, other_button),
    ensures
        window == other,
        button == other_button,
{
    reveal_strlit("0123456789");
    reveal_strlit("btn_");
    reveal_strlit("_");
    let a = button_name(window, button);
    let b = button_name(other, other_button);
    let front_a = "btn_"@ + decimal(window);
    let front_b = "btn_"@ + decimal(other);
    assert(a.last() == "0123456789"@[button as int]);
    assert(b.last() == "0123456789"@[other_button as int]);
    assert(front_a =~= a.take(a.len() - 2));
    assert(front_b =~= b.take(b.len() - 2));
    assert(decimal(window) =~= front_a.skip(4));
    assert(decimal(other) =~= front_b.skip(4));
    lemma_decimal_unique(window, other);
}

proof fn lemma_decimal_unique(a: nat, b: nat)
    requires
        decimal(a) == decimal(b),
    ensures
        a == b,
    decreases a,
{
    reveal_strlit("0123456789");
    lemma_decimal_len(a);
    lemma_decimal_len(b);
    assert(decimal(a).last() == "0123456789"@[(a % 10) as int]);
    assert(decimal(b).last() == "0123456789"@[(b % 10) as int]);
    assert(a % 10 == b % 10);
    if a >= 10 && b >= 10 {
        assert(decimal(a / 10) =~= decimal(a).drop_last());
        assert(decimal(b / 10) =~= decimal(b).drop_last());
        lemma_decimal_unique(a / 10, b / 10);
    }
}

proof fn lemma_decimal_len(n: nat)
    ensures
        decimal(n).len() > 0,
        n >= 10 ==> decimal(n).len() > 1,
        n < 10 ==> decimal(n).len() == 1,
    decreases n,
{
    if n >= 10 {
        lemma_decimal_len(n / 10);
    }
}

} // verus!
