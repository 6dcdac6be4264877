//! What holds of devices, modes and the events of their sources.

use vstd::prelude::*;

use crate::backend::{
    ascii, chooses_connector, chooses_crtc, chosen_mode, device_path, first_connected,
    first_with_crtc, has_crtc, is_drm_path, native_mode, occurs_at, occurs_in, DrmError,
};
use crate::geometry::Size;
use crate::ieee::format::Float;
use crate::input::FloraInputEvent;
use crate::laws::measure::{hair, law_physical_is_logical_times_scale, multiplies, pixel};
use crate::libinput::{closed_path, opening_outcome};
use crate::session::{
    is_translation, short_time, DrmSignal, HostAction, HostEvent, InputSource, RawInput,
};
use crate::state::{BackendData, Desktop, Screen};

verus! {

/// Any path with "card" or "render" in it is of a graphics device.
pub proof fn law_graphics_paths(before: Seq<u8>, after: Seq<u8>)
    ensures
        is_drm_path(before + ascii("card"@) + after),
        is_drm_path(before + ascii("render"@) + after),
{
    lemma_occurs(before, ascii("card"@), after);
    lemma_occurs(before, ascii("render"@), after);
}

proof fn lemma_occurs(before: Seq<u8>, part: Seq<u8>, after: Seq<u8>)
    ensures
        occurs_in(before + part + after, part),
{
    let whole = before + part + after;
    let at = before.len() as int;
    assert(whole.subrange(at, at + part.len()) =~= part);
    assert(occurs_at(whole, part, at));
}

/// The whole is the three parts in a row.
pub open spec fn is_joined(
    whole: Seq<u8>,
    before: Seq<u8>,
    part: Seq<u8>,
    after: Seq<u8>,
) -> bool {
    whole == before + part + after
}

/// A path is of a graphics device only if it has one of the two words in it, so
/// that one shorter than both never is.
pub proof fn law_other_paths(path: Seq<u8>)
    requires
        is_drm_path(path),
    ensures
        path.len() >= 4,
        exists|before: Seq<u8>, after: Seq<u8>|
            is_joined(path, before, ascii("card"@), after) || is_joined(
                path,
                before,
                ascii("render"@),
                after,
            ),
{
    reveal_strlit("card");
    reveal_strlit("render");
    let part = if occurs_in(path, ascii("card"@)) {
        ascii("card"@)
    } else {
        ascii("render"@)
    };
    let at = choose|at: int| occurs_at(path, part, at);
    let before = path.take(at);
    let after = path.skip(at + part.len());
    assert forall|i: int| 0 <= i < part.len() implies path[at + i] == #[trigger] part[i] by {
        assert(path.subrange(at, at + part.len())[i] == part[i]);
    }
    assert(path =~= before + part + after);
    assert(is_joined(path, before, ascii("card"@), after) || is_joined(
        path,
        before,
        ascii("render"@),
        after,
    ));
}

/// The device found last is tried first, and is then gone; what was found before
/// it is tried after it. Other devices are never kept.
pub proof fn law_devices_are_tried_last_found_first(desktop: Desktop, path: Seq<u8>)
    requires
        !desktop.has_renderer,
    ensures
        is_drm_path(path) ==> desktop.with_device(path).device_to_try(false) == Some(path),
        is_drm_path(path) ==> desktop.with_device(path).without_device_to_try(false) == desktop,
        !is_drm_path(path) ==> desktop.with_device(path) == desktop,
        desktop.without_device_to_try(true) == desktop,
{
    if is_drm_path(path) {
        assert(desktop.drm_devices.push(path).drop_last() =~= desktop.drm_devices);
    }
}

/// An attached backend has a frame drawn on its output, and leaves windows,
/// pointer and devices as they are. A native one ends the search for devices.
pub proof fn law_attached_backend_draws(desktop: Desktop, output: Screen, use_winit: bool)
    requires
        output.mode is Some,
    ensures
        ({
            let nested = desktop.with_winit(output);
            let native = desktop.with_drm(output);
            &&& nested.mode() == output.mode && native.mode() == output.mode
            &&& nested.scale() == output.scale && native.scale() == output.scale
            &&& nested.needs_redraw && native.needs_redraw
            &&& nested.frame_error() is None && native.frame_error() is None
            &&& nested.backend_data == BackendData::Winit
            &&& native.backend_data == BackendData::Drm
            &&& native.device_to_try(use_winit) is None
            &&& nested.has_renderer == desktop.has_renderer
            &&& nested.windows == desktop.windows && native.windows == desktop.windows
            &&& nested.pointer == desktop.pointer && native.pointer == desktop.pointer
            &&& nested.grab == desktop.grab && native.grab == desktop.grab
            &&& nested.drm_devices == desktop.drm_devices
            &&& native.drm_devices == desktop.drm_devices
            &&& nested.should_stop == desktop.should_stop
            &&& native.should_stop == desktop.should_stop
        }),
{
}

/// A window of the host that is resized gives the output its size, at the same
/// scale, and asks for a frame. The mode that is set is the one that the output
/// then has.
pub proof fn law_resize_sets_the_mode(desktop: Desktop, size: Size)
    ensures
        ({
            let event = HostEvent::Resized { size };
            let after = desktop.after_host_event(event);
            let action = desktop.host_action(event);
            &&& after.needs_redraw
            &&& after.scale() == desktop.scale()
            &&& desktop.output is Some ==> after.mode() == Some(size)
            &&& desktop.output is None ==> after.output is None && action == HostAction::Nothing
            &&& desktop.output is Some ==> action is SetMode && Some(action->mode.size)
                == after.mode() && action->mode.refresh == 60_000
            &&& after == (Desktop { output: after.output, needs_redraw: true, ..desktop })
        }),
{
}

/// Only a request to close stops a session, only a gained focus releases keys,
/// and a lost one does nothing.
pub proof fn law_host_events(desktop: Desktop, event: HostEvent)
    ensures
        desktop.after_host_event(event).should_stop <==> desktop.should_stop || event
            == HostEvent::CloseRequested,
        desktop.host_action(event) == HostAction::ReleaseKeys <==> event == (HostEvent::Focus {
            gained: true,
        }),
        event is Input || event is Redraw ==> desktop.after_host_event(event) == (Desktop {
            needs_redraw: true,
            ..desktop
        }),
        event is Focus ==> desktop.after_host_event(event) == desktop,
        event is CloseRequested ==> desktop.after_host_event(event) == (Desktop {
            should_stop: true,
            ..desktop
        }),
        !(event is Resized) && !(event is Focus) ==> desktop.host_action(event)
            == HostAction::Nothing,
{
}

/// A vertical blank asks for a frame, an error does not, and drawing one settles
/// what was asked for; nothing else changes.
pub proof fn law_frames_are_asked_for_and_drawn(desktop: Desktop, signal: DrmSignal)
    ensures
        desktop.after_signal(DrmSignal::VBlank).needs_redraw,
        desktop.after_signal(DrmSignal::Error) == desktop,
        desktop.after_signal(signal) == (Desktop {
            needs_redraw: desktop.after_signal(signal).needs_redraw,
            ..desktop
        }),
        !desktop.with_frame_finished().needs_redraw,
        desktop.with_frame_finished() == (Desktop { needs_redraw: false, ..desktop }),
{
}

/// A native mode has the width and the height of its connector's mode, and its
/// refresh rate times a thousand where that fits.
pub proof fn law_native_mode(width: u16, height: u16, vrefresh: u32)
    ensures
        native_mode(width, height, vrefresh).size.w == width,
        native_mode(width, height, vrefresh).size.h == height,
        vrefresh * 1000 <= i32::MAX ==> native_mode(width, height, vrefresh).refresh == vrefresh
            * 1000,
{
}

/// There is one first connector that is connected, and one first encoder with a
/// controller: the choices are settled.
pub proof fn law_choices_are_settled(
    connected: Seq<Option<bool>>,
    encoders: Seq<Option<Vec<u32>>>,
    index: int,
    other: int,
)
    ensures
        first_connected(connected, index) && first_connected(connected, other) ==> index == other,
        first_connected(connected, index) && 0 <= other < connected.len() && connected[other]
            == Some(true) ==> index <= other,
        first_with_crtc(encoders, index) && first_with_crtc(encoders, other) ==> index == other,
{
    if first_connected(connected, index) && 0 <= other < index {
        assert(connected[other] != Some(true));
    }
    if first_connected(connected, other) && 0 <= index < other {
        assert(connected[index] != Some(true));
    }
    if first_with_crtc(encoders, index) && first_with_crtc(encoders, other) {
        if index < other {
            assert(!has_crtc(encoders[index]));
        } else if other < index {
            assert(!has_crtc(encoders[other]));
        }
    }
}

/// A connector is chosen exactly if one is connected, and a controller exactly if
/// an encoder has one. The connector is connected, the controller is the first
/// of an encoder's.
pub proof fn law_what_is_there_is_chosen(
    connected: Seq<Option<bool>>,
    connector: Result<usize, DrmError>,
    encoders: Seq<Option<Vec<u32>>>,
    crtc: Result<u32, DrmError>,
)
    requires
        chooses_connector(connected, connector),
        chooses_crtc(encoders, crtc),
    ensures
        connector is Ok <==> exists|i: int|
            0 <= i < connected.len() && #[trigger] connected[i] == Some(true),
        connector matches Ok(index) ==> connected[index as int] == Some(true),
        crtc is Ok <==> exists|i: int|
            0 <= i < encoders.len() && #[trigger] encoders[i] is Some && encoders[i]->0@.len() > 0,
        crtc matches Ok(chosen) ==> exists|i: int|
            0 <= i < encoders.len() && #[trigger] encoders[i] is Some && encoders[i]->0@.len() > 0
                && encoders[i]->0@[0] == chosen,
{
    if connector is Ok {
        assert(connected[connector->Ok_0 as int] == Some(true));
    }
    if crtc is Ok {
        let index = choose|index: int|
            {
                &&& #[trigger] first_with_crtc(encoders, index)
                &&& crtc->Ok_0 == encoders[index]->0@[0]
            };
        assert(has_crtc(encoders[index]));
    } else {
        assert forall|i: int| 0 <= i < encoders.len() && #[trigger] encoders[i] is Some implies
            encoders[i]->0@.len() == 0 by {
            assert(!has_crtc(encoders[i]));
        }
    }
}

/// A mode is chosen exactly if there is one, and it is one of those there are.
pub proof fn law_a_mode_is_chosen(modes: usize)
    ensures
        chosen_mode(modes) is Ok <==> modes > 0,
        chosen_mode(modes) matches Ok(index) ==> index == 0 && index < modes,
{
}

/// A device whose name begins with "event" is found under its name in the device
/// directory, and no other is.
pub proof fn law_input_devices_by_name(rest: Seq<char>, name: Seq<char>)
    ensures
        device_path("event"@ + rest) == Some("/dev/input/"@ + ("event"@ + rest)),
        device_path(name) is Some ==> name.len() >= 5 && device_path(name)->0.len() == name.len()
            + 11,
{
    reveal_strlit("event");
    reveal_strlit("/dev/input/");
}

/// A path is closed by one zero byte, and is otherwise as it was; one that holds
/// a zero byte is refused. Two paths are never closed to the same.
pub proof fn law_paths_are_closed(path: Seq<u8>, other: Seq<u8>)
    ensures
        closed_path(path) is Ok <==> forall|i: int| 0 <= i < path.len() ==> #[trigger] path[i] != 0,
        closed_path(path) matches Ok(closed) ==> closed.len() == path.len() + 1 && closed.last()
            == 0 && closed.drop_last() == path,
        closed_path(path) is Ok && closed_path(path) == closed_path(other) ==> path == other,
{
    if !path.contains(0) {
        assert forall|i: int| 0 <= i < path.len() implies #[trigger] path[i] != 0 by {}
        assert(path.push(0).drop_last() =~= path);
        if closed_path(path) == closed_path(other) {
            assert(!other.contains(0));
            assert(path.push(0) == other.push(0));
            assert(other.push(0).drop_last() =~= other);
        }
    }
}

/// A descriptor is handed on exactly if the system gave one; else its error is.
pub proof fn law_descriptors_are_handed_on(descriptor: i32, error: Option<i32>, number: i32)
    ensures
        opening_outcome(descriptor, error) is Ok <==> descriptor >= 0,
        opening_outcome(descriptor, error) matches Ok(given) ==> given == descriptor,
        descriptor < 0 ==> opening_outcome(descriptor, Some(number)) == Err::<i32, i32>(number),
{
}

/// The output has the mode and the scale that it is given; without an output the
/// scale is one.
pub proof fn law_output_is_what_it_is_given(desktop: Desktop, output: Screen)
    ensures
        desktop.output == Some(output) ==> desktop.mode() == output.mode && desktop.scale()
            == output.scale,
        desktop.output is None ==> desktop.mode() is None && desktop.scale() is Finite
            && desktop.scale().value() == pixel(),
{
    crate::laws::measure::lemma_integer_reachable(1);
}

/// Keys, buttons and absolute locations reach the compositor as their source
/// gives them, from every source, with the time counted round after `2^32`.
pub proof fn law_events_are_taken_as_they_are(
    source: InputSource,
    scale: Float,
    raw: RawInput,
    event: Option<FloraInputEvent>,
)
    requires
        is_translation(source, scale, raw, event),
    ensures
        event is None <==> raw is Other,
        raw is Keyboard ==> {
            &&& event matches Some(FloraInputEvent::Keyboard { keycode, pressed, time })
            &&& keycode == raw->keycode
            &&& pressed == raw->Keyboard_pressed
            &&& time == short_time(raw->Keyboard_time)
        },
        raw is PointerButton ==> {
            &&& event matches Some(FloraInputEvent::PointerButton { button, pressed, time })
            &&& button == raw->button
            &&& pressed == raw->PointerButton_pressed
            &&& time == short_time(raw->PointerButton_time)
        },
        raw is PointerMotionAbsolute ==> {
            &&& event matches Some(FloraInputEvent::PointerMotionAbsolute { location, time })
            &&& location == raw->location
            &&& time == short_time(raw->PointerMotionAbsolute_time)
        },
{
}

/// Times are counted round after `2^32`.
pub proof fn law_times_are_counted_round(time: u64)
    ensures
        time < 0x1_0000_0000 ==> short_time(time) == time,
        time < 0x8000_0000_0000_0000 ==> short_time((time + 0x1_0000_0000) as u64) == short_time(
            time,
        ),
{
}

/// Relative motion of devices and of the host is multiplied by the scale on each
/// axis; that of a thread is taken as it is.
pub proof fn law_relative_motion_is_scaled(
    source: InputSource,
    scale: Float,
    raw: RawInput,
    event: Option<FloraInputEvent>,
)
    requires
        is_translation(source, scale, raw, event),
        raw is PointerMotion,
        multiplies(scale, raw->delta@.x),
        multiplies(scale, raw->delta@.y),
    ensures
        event matches Some(FloraInputEvent::PointerMotion { delta, time }) && {
            let (by, slack, s) = (raw->delta@, pixel() * hair(), scale.value());
            &&& time == short_time(raw->PointerMotion_time)
            &&& source == InputSource::Thread ==> delta@ == by
            &&& source != InputSource::Thread ==> {
                &&& delta@.x is Finite
                &&& delta@.y is Finite
                &&& -slack <= 2 * (delta@.x.value() * pixel() - by.x.value() * s) <= slack
                &&& -slack <= 2 * (delta@.y.value() * pixel() - by.y.value() * s) <= slack
            }
        },
{
    law_physical_is_logical_times_scale(raw->delta@, scale);
}

} // verus!
