//! The course of a session: backends, devices, host events, the main loop.

use vstd::prelude::*;

use crate::backend::{is_drm_device, is_drm_path, nested_output_mode, OutputMode};
use crate::geometry::{PointF, Size};
use crate::ieee::bits::F64;
use crate::ieee::format::Float;
use crate::input::FloraInputEvent;
use crate::state::{paths_view, BackendData, Desktop, FloraState, OutputState, Screen};

verus! {

/// An event of the window that a nested session runs in. Input has been
/// handled already.
#[derive(Debug, Clone, Copy, PartialEq, Eq, Structural)]
pub enum HostEvent {
    Resized { size: Size },
    Input,
    Redraw,
    CloseRequested,
    Focus { gained: bool },
}

/// What is to be done about a host event.
#[derive(Debug, Clone, Copy, PartialEq, Eq, Structural)]
pub enum HostAction {
    Nothing,
    /// Set the mode of the output.
    SetMode { mode: OutputMode },
    /// Release every key that is down.
    ReleaseKeys,
}

/// An event of the display controller.
#[derive(Debug, Clone, Copy, PartialEq, Eq, Structural)]
pub enum DrmSignal {
    VBlank,
    Error,
}

impl Desktop {
    pub open spec fn after_host_event(self, event: HostEvent) -> Desktop {
        match event {
            HostEvent::Resized { size } => Desktop {
                output: match self.output {
                    Some(screen) => Some(Screen { mode: Some(size), ..screen }),
                    None => None,
                },
                needs_redraw: true,
                ..self
            },
            HostEvent::Input => Desktop { needs_redraw: true, ..self },
            HostEvent::Redraw => Desktop { needs_redraw: true, ..self },
            HostEvent::CloseRequested => Desktop { should_stop: true, ..self },
            HostEvent::Focus { .. } => self,
        }
    }

    pub open spec fn host_action(self, event: HostEvent) -> HostAction {
        match event {
            HostEvent::Resized { size } => if self.output is Some {
                HostAction::SetMode { mode: OutputMode { size, refresh: 60_000 } }
            } else {
                HostAction::Nothing
            },
            HostEvent::Focus { gained: true } => HostAction::ReleaseKeys,
            _ => HostAction::Nothing,
        }
    }

    /// A nested backend in use.
    pub open spec fn with_winit(self, output: Screen) -> Desktop {
        Desktop {
            output: Some(output),
            backend_data: BackendData::Winit,
            needs_redraw: true,
            ..self
        }
    }

    /// A native backend in use.
    pub open spec fn with_drm(self, output: Screen) -> Desktop {
        Desktop {
            output: Some(output),
            has_renderer: true,
            backend_data: BackendData::Drm,
            needs_redraw: true,
            ..self
        }
    }

    /// A device taken note of, if it is a graphics device.
    pub open spec fn with_device(self, path: Seq<u8>) -> Desktop {
        if is_drm_path(path) {
            Desktop { drm_devices: self.drm_devices.push(path), ..self }
        } else {
            self
        }
    }

    /// The device to try taken out, if there is one.
    pub open spec fn without_device_to_try(self, use_winit: bool) -> Desktop {
        if self.device_to_try(use_winit) is Some {
            Desktop { drm_devices: self.drm_devices.drop_last(), ..self }
        } else {
            self
        }
    }

    /// An event of the display controller.
    pub open spec fn after_signal(self, signal: DrmSignal) -> Desktop {
        Desktop { needs_redraw: self.needs_redraw || signal == DrmSignal::VBlank, ..self }
    }

    /// A frame drawn.
    pub open spec fn with_frame_finished(self) -> Desktop {
        Desktop { needs_redraw: false, ..self }
    }

    /// A device that may be initialized now: the last one found, as long as
    /// there is no renderer yet.
    pub open spec fn device_to_try(self, use_winit: bool) -> Option<Seq<u8>> {
        if !use_winit && !self.has_renderer && self.drm_devices.len() > 0 {
            Some(self.drm_devices.last())
        } else {
            None
        }
    }
}

/// Handles an event of the window that a nested session runs in.
pub fn handle_host_event(state: &mut FloraState, event: HostEvent) -> (r: HostAction)
    ensures
        final(state)@ == old(state)@.after_host_event(event),
        r == old(state)@.host_action(event),
{
    match event {
        HostEvent::Resized { size } => {
            state.needs_redraw = true;
            match state.output {
                Some(output) => {
                    state.output = Some(OutputState { mode: Some(size), scale: output.scale });
                    HostAction::SetMode { mode: nested_output_mode(size) }
                },
                None => HostAction::Nothing,
            }
        },
        HostEvent::Input => {
            state.needs_redraw = true;
            HostAction::Nothing
        },
        HostEvent::Redraw => {
            state.needs_redraw = true;
            HostAction::Nothing
        },
        HostEvent::CloseRequested => {
            state.should_stop = true;
            HostAction::Nothing
        },
        HostEvent::Focus { gained } => if gained {
            HostAction::ReleaseKeys
        } else {
            HostAction::Nothing
        },
    }
}

/// Takes a nested backend into use.
pub fn attach_winit(state: &mut FloraState, output: OutputState)
    ensures
        final(state)@ == old(state)@.with_winit(output@),
{
    state.output = Some(output);
    state.backend_data = BackendData::Winit;
    state.needs_redraw = true;
}

/// Takes a native backend into use.
pub fn attach_drm(state: &mut FloraState, output: OutputState)
    ensures
        final(state)@ == old(state)@.with_drm(output@),
{
    state.has_renderer = true;
    state.output = Some(output);
    state.backend_data = BackendData::Drm;
    state.needs_redraw = true;
}

/// Takes note of a device, if it is a graphics device.
pub fn add_device(state: &mut FloraState, path: Vec<u8>)
    ensures
        final(state)@ == old(state)@.with_device(path@),
{
    if is_drm_device(&path) {
        let ghost before = state.drm_devices@;
        state.drm_devices.push(path);
        assert(paths_view(state.drm_devices@) =~= paths_view(before).push(path@));
    }
}

/// Takes out the device to initialize now, if there is one.
pub fn next_device(state: &mut FloraState, use_winit: bool) -> (r: Option<Vec<u8>>)
    ensures
        final(state)@ == old(state)@.without_device_to_try(use_winit),
        match r {
            Some(path) => old(state)@.device_to_try(use_winit) == Some(path@),
            None => old(state)@.device_to_try(use_winit) is None,
        },
{
    if !use_winit && !state.has_renderer {
        let ghost before = state.drm_devices@;
        let r: Option<Vec<u8>> = state.drm_devices.pop();
        proof {
            if before.len() > 0 {
                assert(paths_view(state.drm_devices@) =~= paths_view(before).drop_last());
            } else {
                assert(paths_view(state.drm_devices@) =~= paths_view(before));
            }
        }
        r
    } else {
        None
    }
}

/// Handles an event of the display controller.
pub fn handle_drm_signal(state: &mut FloraState, signal: DrmSignal)
    ensures
        final(state)@ == old(state)@.after_signal(signal),
{
    match signal {
        DrmSignal::VBlank => {
            state.needs_redraw = true;
        },
        DrmSignal::Error => {},
    }
}

/// Ends a frame of the main loop: what was drawn need not be drawn again.
pub fn finish_frame(state: &mut FloraState)
    ensures
        final(state)@ == old(state)@.with_frame_finished(),
{
    state.needs_redraw = false;
}

/// A step of the main loop.
#[derive(Debug, Clone, Copy, PartialEq, Eq, Structural)]
pub enum LoopStep {
    /// Initialize a device if there is one to try, then wait for events and
    /// handle them.
    Dispatch,
    /// Draw a frame and take note of it.
    Draw,
    /// Leave the loop.
    Stop,
}

impl Desktop {
    /// How the loop goes round: on, unless the session is to stop.
    pub open spec fn next_round(self) -> LoopStep {
        if self.should_stop {
            LoopStep::Stop
        } else {
            LoopStep::Dispatch
        }
    }

    /// The step after a step of the main loop. Once events could not be
    /// dispatched it is left; a frame that is asked for is drawn before that is
    /// looked at again.
    pub open spec fn loop_step(self, step: LoopStep, succeeded: bool) -> LoopStep {
        match step {
            LoopStep::Dispatch => if !succeeded {
                LoopStep::Stop
            } else if self.needs_redraw {
                LoopStep::Draw
            } else {
                self.next_round()
            },
            LoopStep::Draw => self.next_round(),
            LoopStep::Stop => LoopStep::Stop,
        }
    }
}

/// Begins the main loop.
pub fn begin_loop(state: &FloraState) -> (r: LoopStep)
    ensures
        r == state@.next_round(),
{
    if state.should_stop {
        LoopStep::Stop
    } else {
        LoopStep::Dispatch
    }
}

/// Goes on with the main loop after a step that succeeded or failed. A frame
/// that could not be drawn does not stop it.
pub fn continue_loop(state: &FloraState, step: LoopStep, succeeded: bool) -> (r: LoopStep)
    ensures
        r == state@.loop_step(step, succeeded),
{
    match step {
        LoopStep::Dispatch => if !succeeded {
            LoopStep::Stop
        } else if state.needs_redraw {
            LoopStep::Draw
        } else {
            begin_loop(state)
        },
        LoopStep::Draw => begin_loop(state),
        LoopStep::Stop => LoopStep::Stop,
    }
}

/// Where input comes from.
#[derive(Debug, Clone, Copy, PartialEq, Eq, Structural)]
pub enum InputSource {
    /// The window that a nested session runs in.
    Host,
    /// Devices of a native session.
    Devices,
    /// Devices read on a thread of their own, in physical coordinates.
    Thread,
}

/// An input event as its source gives it. Relative motion is in logical
/// coordinates but for a thread's; an absolute location is a share of the
/// output, from zero to one on each axis. The time counts on beyond thirty-two
/// bits.
#[derive(Debug, Clone, Copy)]
pub enum RawInput {
    Keyboard { keycode: u32, pressed: bool, time: u64 },
    PointerMotion { delta: PointF, time: u64 },
    PointerMotionAbsolute { location: PointF, time: u64 },
    PointerButton { button: u32, pressed: bool, time: u64 },
    Other,
}

/// The lowest thirty-two bits of a time.
pub open spec fn short_time(time: u64) -> u32 {
    (time % 0x1_0000_0000) as u32
}

fn shorten(time: u64) -> (r: u32)
    ensures
        r == short_time(time),
{
    (time % 0x1_0000_0000) as u32
}

/// The event of the compositor is what the event of the source stands for at a
/// scale: relative motion is brought to physical coordinates, the rest is taken
/// as it is.
pub open spec fn is_translation(
    source: InputSource,
    scale: Float,
    raw: RawInput,
    event: Option<FloraInputEvent>,
) -> bool {
    match raw {
        RawInput::Keyboard { keycode, pressed, time } => event == Some(
            FloraInputEvent::Keyboard { keycode, pressed, time: short_time(time) },
        ),
        RawInput::PointerMotion { delta, time } => {
            &&& event matches Some(FloraInputEvent::PointerMotion { delta: moved, time: short })
            &&& short == short_time(time)
            &&& moved@ == if source == InputSource::Thread {
                delta@
            } else {
                delta@.to_physical(scale)
            }
        },
        RawInput::PointerMotionAbsolute { location, time } => event == Some(
            FloraInputEvent::PointerMotionAbsolute { location, time: short_time(time) },
        ),
        RawInput::PointerButton { button, pressed, time } => event == Some(
            FloraInputEvent::PointerButton { button, pressed, time: short_time(time) },
        ),
        RawInput::Other => event is None,
    }
}

/// Turns an event of a source into one of the compositor, at the scale of the
/// output. Relative and absolute motion are taken from every source.
pub fn translate_input(source: InputSource, scale: F64, raw: RawInput) -> (r: Option<
    FloraInputEvent,
>)
    ensures
        is_translation(source, scale@, raw, r),
{
    match raw {
        RawInput::Keyboard { keycode, pressed, time } => Some(
            FloraInputEvent::Keyboard { keycode, pressed, time: shorten(time) },
        ),
        RawInput::PointerMotion { delta, time } => {
            let moved: PointF = if source == InputSource::Thread {
                delta
            } else {
                delta.to_physical(scale)
            };
            Some(FloraInputEvent::PointerMotion { delta: moved, time: shorten(time) })
        },
        RawInput::PointerMotionAbsolute { location, time } => Some(
            FloraInputEvent::PointerMotionAbsolute { location, time: shorten(time) },
        ),
        RawInput::PointerButton { button, pressed, time } => Some(
            FloraInputEvent::PointerButton { button, pressed, time: shorten(time) },
        ),
        RawInput::Other => None,
    }
}

} // verus!
