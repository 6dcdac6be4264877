//! What holds over the course of a session.

use vstd::prelude::*;

use crate::backend::is_drm_path;
use crate::geometry::{double, Place, Point, Size};
use crate::ieee::arith::product;
use crate::ieee::exact::{lemma_integer_exact, lemma_rounded_ratio, lemma_rounded_same};
use crate::ieee::format::{Float, Format};
use crate::ieee::rounding::{lemma_pow2_values, rounded};
use crate::input::{clients_testable, window_under, windows_testable, FloraInputEvent};
use crate::laws::desktop::law_window_under_is_topmost;
use crate::session::{HostEvent, LoopStep};
use crate::state::Desktop;
use crate::window::bar_fits;

verus! {

/// Every device that is kept is a graphics device.
pub open spec fn devices_are_graphics(desktop: Desktop) -> bool {
    forall|i: int|
        0 <= i < desktop.drm_devices.len() ==> is_drm_path(#[trigger] desktop.drm_devices[i])
}

/// Only graphics devices are ever tried.
pub proof fn law_only_graphics_devices_are_tried(desktop: Desktop, path: Seq<u8>, use_winit: bool)
    requires
        devices_are_graphics(desktop),
    ensures
        devices_are_graphics(Desktop::initial()),
        is_drm_path(path) ==> devices_are_graphics(
            Desktop { drm_devices: desktop.drm_devices.push(path), ..desktop },
        ),
        desktop.device_to_try(use_winit) matches Some(device) ==> {
            &&& is_drm_path(device)
            &&& devices_are_graphics(
                Desktop { drm_devices: desktop.drm_devices.drop_last(), ..desktop },
            )
        },
{
}

/// Once there is a renderer, no further device is tried; nested, none ever is.
pub proof fn law_devices_rest_with_a_renderer(desktop: Desktop)
    ensures
        desktop.has_renderer ==> desktop.device_to_try(false) is None,
        desktop.device_to_try(true) is None,
{
}

/// A new window comes on top of all others, leaves them as they are, asks for a
/// frame, and lets a drag go on.
pub proof fn law_new_window_is_on_top(desktop: Desktop, surface: u64)
    ensures
        ({
            let after = desktop.with_new_window(surface);
            &&& after.windows.last().surface == surface
            &&& after.windows.drop_last() == desktop.windows
            &&& after.needs_redraw
            &&& after.grab == desktop.grab
            &&& desktop.grab_in_range() ==> after.grab_in_range()
            &&& desktop.windows_fit() ==> after.windows_fit()
        }),
{
    let after = desktop.with_new_window(surface);
    assert(after.windows.drop_last() =~= desktop.windows);
    if desktop.windows_fit() {
        assert forall|i: int| 0 <= i < after.windows.len() implies bar_fits(
            (#[trigger] after.windows[i]).client_size(),
        ) by {
            if i < desktop.windows.len() {
                assert(after.windows[i] == desktop.windows[i]);
            }
        }
    }
}

/// Input leaves the sizes of the windows alone, so that they go on fitting.
pub proof fn law_windows_go_on_fitting(
    desktop: Desktop,
    event: FloraInputEvent,
    overlay_wants_pointer: bool,
)
    requires
        desktop.windows_fit(),
    ensures
        desktop.after_event(event, overlay_wants_pointer).windows_fit(),
{
    let after = desktop.after_event(event, overlay_wants_pointer);
    law_window_under_is_topmost(
        desktop.windows,
        desktop.pointer,
        desktop.scale(),
    );
    assert forall|i: int| 0 <= i < after.windows.len() implies bar_fits(
        (#[trigger] after.windows[i]).client_size(),
    ) by {
        if event is PointerButton {
            match window_under(desktop.windows, desktop.pointer, desktop.scale()) {
                Some(index) => {
                    if after.windows != desktop.windows {
                        let from = if i < index {
                            i
                        } else if i + 1 < after.windows.len() {
                            i + 1
                        } else {
                            index
                        };
                        assert(after.windows[i] == desktop.windows[from]);
                    }
                },
                None => {},
            }
        } else {
            assert(after.windows[i].client_size() == desktop.windows[i].client_size());
        }
    }
}

/// Where every window has a height, every input event is admitted.
pub proof fn law_fitting_windows_admit_input(
    desktop: Desktop,
    event: FloraInputEvent,
    overlay_wants_pointer: bool,
)
    requires
        desktop.windows_fit(),
    ensures
        desktop.admits(event, overlay_wants_pointer),
{
    let after = desktop.after_event(event, overlay_wants_pointer);
    law_windows_go_on_fitting(desktop, event, overlay_wants_pointer);
    lemma_fitting_testable(desktop, desktop.pointer, desktop.scale());
    lemma_fitting_testable(after, after.pointer, desktop.scale());
}

proof fn lemma_fitting_testable(desktop: Desktop, pointer: Place, scale: Float)
    requires
        desktop.windows_fit(),
    ensures
        windows_testable(desktop.windows, pointer, scale),
        clients_testable(desktop.windows, pointer, scale),
    decreases desktop.windows.len(),
{
    if desktop.windows.len() > 0 {
        let below = Desktop { windows: desktop.windows.drop_last(), ..desktop };
        assert forall|i: int| 0 <= i < below.windows.len() implies bar_fits(
            (#[trigger] below.windows[i]).client_size(),
        ) by {
            assert(below.windows[i] == desktop.windows[i]);
        }
        lemma_fitting_testable(below, pointer, scale);
    }
}

/// The stop of a session is for good: no event takes it back.
pub proof fn law_stop_is_final(
    desktop: Desktop,
    event: FloraInputEvent,
    overlay_wants_pointer: bool,
    host_event: HostEvent,
)
    requires
        desktop.should_stop,
    ensures
        desktop.after_event(event, overlay_wants_pointer).should_stop,
        desktop.after_host_event(host_event).should_stop,
{
}

/// A frame is drawn exactly if events were dispatched and one is asked for,
/// even if the session is to stop; once it is drawn, and until another is asked
/// for, none is drawn again.
pub proof fn law_a_frame_is_drawn_when_asked_for(desktop: Desktop, step: LoopStep, succeeded: bool)
    ensures
        desktop.loop_step(step, succeeded) == LoopStep::Draw <==> step == LoopStep::Dispatch
            && succeeded && desktop.needs_redraw,
        ({
            let drawn = Desktop { needs_redraw: false, ..desktop };
            &&& drawn.loop_step(LoopStep::Draw, succeeded) == desktop.next_round()
            &&& drawn.loop_step(step, succeeded) != LoopStep::Draw
        }),
{
}

/// The main loop is left exactly if events could not be dispatched, or if the
/// session is to stop and no frame is asked for that is still to be drawn.
pub proof fn law_the_loop_ends(desktop: Desktop, succeeded: bool)
    ensures
        desktop.loop_step(LoopStep::Dispatch, succeeded) == LoopStep::Stop <==> !succeeded || (
        desktop.should_stop && !desktop.needs_redraw),
        desktop.loop_step(LoopStep::Draw, succeeded) == LoopStep::Stop <==> desktop.should_stop,
        desktop.next_round() == LoopStep::Stop <==> desktop.should_stop,
        desktop.loop_step(LoopStep::Stop, succeeded) == LoopStep::Stop,
{
}

/// Absolute locations reach from the one corner of the output to the other.
pub proof fn law_absolute_motion_reaches_the_corners(desktop: Desktop, size: Size)
    requires
        desktop.mode() == Some(size),
    ensures
        0 <= size.w && 0 <= size.h ==> desktop.absolute_target(Place::of(Point { x: 0, y: 0 }))
            == Place::of(Point { x: 0, y: 0 }),
        desktop.absolute_target(Place::of(Point { x: 1, y: 1 })) == Place::of(
            Point { x: size.w, y: size.h },
        ),
{
    lemma_corner(size.w);
    lemma_corner(size.h);
}

proof fn lemma_corner(n: i32)
    ensures
        0 <= n ==> product(Format::Binary64, double(0), double(n as int)) == double(0),
        product(Format::Binary64, double(1), double(n as int)) == double(n as int),
{
    let format = Format::Binary64;
    lemma_pow2_values();
    lemma_integer_exact(format, 0);
    lemma_integer_exact(format, 1);
    lemma_integer_exact(format, n as int);
    let unit = vstd::arithmetic::power2::pow2(1074);
    vstd::arithmetic::power2::lemma_pow2_pos(1074);
    let a = double(n as int);
    assert(n >= 0 ==> n * unit >= 0) by (nonlinear_arith);
    assert(n < 0 ==> n * unit < 0) by (nonlinear_arith)
        requires
            unit > 0,
    ;
    assert(0 * unit == 0);
    assert(1 * unit == unit);
    assert(0 * a.units() == 0);
    lemma_rounded_ratio(format, false, 0, 1, unit);
    assert(double(0) == rounded(format, false, 0, 1)) by {
        lemma_rounded_same(format, double(0));
    }
    assert(unit * a.units() == a.units() * unit) by (nonlinear_arith);
    lemma_rounded_ratio(format, n < 0, a.units(), 1, unit);
    lemma_rounded_same(format, a);
}

} // verus!
