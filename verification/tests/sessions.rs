use flora::backend::{
    choose_connector, choose_crtc, choose_mode, drm_output_mode, input_device_path,
    is_drm_device, nested_output_mode, scanout_formats, tty_path, tty_step, DrmError, OutputMode, TtyStep,
};
use flora::decorations::PixelFormat;
use flora::geometry::{Point, PointF, Size};
use flora::ieee::bits::F64;
use flora::input::{handle_input_event, FloraInputEvent};
use flora::libinput::FloraLibinputInterface;
use flora::session::{
    add_device, attach_drm, attach_winit, begin_loop, continue_loop, finish_frame,
    handle_drm_signal, handle_host_event, next_device, translate_input, DrmSignal, HostAction,
    HostEvent, InputSource, LoopStep, RawInput,
};
use flora::shell::{
    decoration_mode, focus_changed, CursorImage, DecorationMode, ShellEffect, TextInputChange,
};
use flora::state::{BackendData, FloraState, OutputState};

fn num(x: f64) -> F64 {
    F64 { bits: x.to_bits() }
}

fn place(x: f64, y: f64) -> PointF {
    PointF { x: num(x), y: num(y) }
}

fn output() -> OutputState {
    OutputState { mode: Some(Size { w: 640, h: 480 }), scale: num(1.5) }
}

#[test]
fn the_first_connected_connector_is_chosen() {
    assert_eq!(choose_connector(&vec![None, Some(false), Some(true), Some(true)]), Ok(2));
    assert_eq!(
        choose_connector(&vec![None, Some(false)]),
        Err(DrmError::NoConnectedConnector)
    );
    assert_eq!(choose_connector(&vec![]), Err(DrmError::NoConnectedConnector));
}

#[test]
fn the_first_mode_is_chosen() {
    assert_eq!(choose_mode(4), Ok(0));
    assert_eq!(choose_mode(0), Err(DrmError::NoMode));
}

#[test]
fn the_first_controller_of_an_encoder_is_chosen() {
    assert_eq!(choose_crtc(&vec![None, Some(vec![]), Some(vec![42, 43]), Some(vec![7])]), Ok(42));
    assert_eq!(choose_crtc(&vec![None, Some(vec![])]), Err(DrmError::NoCompatibleCrtc));
    assert_eq!(choose_crtc(&vec![]), Err(DrmError::NoCompatibleCrtc));
}

#[test]
fn output_modes_are_in_millihertz() {
    assert_eq!(
        drm_output_mode(1920, 1080, 60),
        OutputMode { size: Size { w: 1920, h: 1080 }, refresh: 60_000 }
    );
    assert_eq!(
        drm_output_mode(u16::MAX, 0, 4_294_967),
        OutputMode { size: Size { w: 65535, h: 0 }, refresh: -296 }
    );
    assert_eq!(
        nested_output_mode(Size { w: 5, h: 6 }),
        OutputMode { size: Size { w: 5, h: 6 }, refresh: 60_000 }
    );
}

#[test]
fn graphics_devices_are_known_by_their_path() {
    for (path, expected) in [
        ("/dev/dri/card0", true),
        ("/dev/dri/renderD128", true),
        ("card", true),
        ("/dev/dri/by-path", false),
        ("/dev/dri/car", false),
        ("/dev/dri/rende", false),
        ("", false),
    ] {
        assert_eq!(is_drm_device(&path.as_bytes().to_vec()), expected, "{path}");
    }
    assert!(is_drm_device(&vec![0xff, b'c', b'a', b'r', b'd', 0xfe]));
}

#[test]
fn input_devices_are_known_by_their_name() {
    let path = |name: &str| input_device_path(&name.to_string());
    assert_eq!(path("event0"), Some("/dev/input/event0".to_string()));
    assert_eq!(path("event"), Some("/dev/input/event".to_string()));
    assert_eq!(path("mouse0"), None);
    assert_eq!(path("even"), None);
    assert_eq!(path("xevent0"), None);
    assert_eq!(path(""), None);
}

#[test]
fn terminals_are_tried_in_turn() {
    assert_eq!(tty_path(0), "/dev/tty0");
    assert_eq!(tty_path(1), "/dev/tty");
    assert_eq!(tty_step(0, Some(0)), TtyStep::Switched { attempt: 0 });
    assert_eq!(tty_step(0, Some(-1)), TtyStep::Try { attempt: 1 });
    assert_eq!(tty_step(0, None), TtyStep::Try { attempt: 1 });
    assert_eq!(tty_step(1, Some(0)), TtyStep::Switched { attempt: 1 });
    assert_eq!(tty_step(1, Some(-1)), TtyStep::GaveUp);
    assert_eq!(tty_step(1, None), TtyStep::GaveUp);
}

#[test]
fn paths_are_closed_for_the_system() {
    let interface = FloraLibinputInterface;
    assert_eq!(interface.system_path(&b"/dev/x".to_vec()), Ok(b"/dev/x\0".to_vec()));
    assert_eq!(interface.system_path(&vec![]), Ok(vec![0]));
    assert_eq!(interface.system_path(&b"/dev/\0x".to_vec()), Err(libc::EINVAL));
    assert_eq!(interface.system_path(&b"\0".to_vec()), Err(22));
}

#[test]
fn opening_gives_a_descriptor_or_an_error_number() {
    let interface = FloraLibinputInterface;
    assert_eq!(interface.opened(0, None), Ok(0));
    assert_eq!(interface.opened(9, Some(13)), Ok(9));
    assert_eq!(interface.opened(-1, Some(13)), Err(13));
    assert_eq!(interface.opened(-1, None), Err(libc::EIO));
    assert_eq!(interface.opened(-1, None), Err(5));
}

#[test]
fn host_events_are_handled() {
    let mut state = FloraState::new();
    let size = Size { w: 300, h: 200 };
    assert_eq!(handle_host_event(&mut state, HostEvent::Resized { size }), HostAction::Nothing);
    assert!(state.needs_redraw);
    assert!(state.output.is_none());

    attach_winit(&mut state, output());
    finish_frame(&mut state);
    assert!(!state.needs_redraw);
    let mode = OutputMode { size, refresh: 60_000 };
    assert_eq!(
        handle_host_event(&mut state, HostEvent::Resized { size }),
        HostAction::SetMode { mode }
    );
    assert_eq!(state.output_mode(), Some(size));
    assert_eq!(state.output.map(|output| output.scale.bits), Some(1.5f64.to_bits()));
    assert!(state.needs_redraw);

    for event in [HostEvent::Input, HostEvent::Redraw] {
        finish_frame(&mut state);
        assert_eq!(handle_host_event(&mut state, event), HostAction::Nothing);
        assert!(state.needs_redraw);
    }

    finish_frame(&mut state);
    let gained = HostEvent::Focus { gained: true };
    assert_eq!(handle_host_event(&mut state, gained), HostAction::ReleaseKeys);
    let lost = HostEvent::Focus { gained: false };
    assert_eq!(handle_host_event(&mut state, lost), HostAction::Nothing);
    assert!(!state.needs_redraw);

    assert!(!state.should_stop);
    assert_eq!(handle_host_event(&mut state, HostEvent::CloseRequested), HostAction::Nothing);
    assert!(state.should_stop);
    handle_host_event(&mut state, HostEvent::Redraw);
    assert!(state.should_stop);
}

#[test]
fn devices_are_tried_until_there_is_a_renderer() {
    let mut state = FloraState::new();
    for path in ["/dev/dri/card0", "/dev/null", "/dev/dri/card1", "/dev/dri/renderD128"] {
        add_device(&mut state, path.as_bytes().to_vec());
    }
    assert_eq!(state.drm_devices.len(), 3);
    assert_eq!(next_device(&mut state, true), None);
    assert_eq!(next_device(&mut state, false), Some(b"/dev/dri/renderD128".to_vec()));
    assert_eq!(next_device(&mut state, false), Some(b"/dev/dri/card1".to_vec()));
    attach_drm(&mut state, output());
    assert!(state.has_renderer && state.needs_redraw);
    assert_eq!(state.backend_data, BackendData::Drm);
    assert_eq!(state.output_mode(), Some(Size { w: 640, h: 480 }));
    assert_eq!(next_device(&mut state, false), None);
    assert_eq!(state.drm_devices.len(), 1);
    let mut empty = FloraState::new();
    assert_eq!(next_device(&mut empty, false), None);
}

#[test]
fn a_nested_backend_is_attached() {
    let mut state = FloraState::new();
    attach_winit(&mut state, output());
    assert_eq!(state.backend_data, BackendData::Winit);
    assert!(!state.has_renderer);
    assert!(state.needs_redraw);
    assert_eq!(state.output_mode(), Some(Size { w: 640, h: 480 }));
}

#[test]
fn a_vertical_blank_asks_for_a_frame() {
    let mut state = FloraState::new();
    handle_drm_signal(&mut state, DrmSignal::Error);
    assert!(!state.needs_redraw);
    handle_drm_signal(&mut state, DrmSignal::VBlank);
    assert!(state.needs_redraw);
    handle_drm_signal(&mut state, DrmSignal::Error);
    assert!(state.needs_redraw);
}

#[test]
fn motion_of_devices_is_scaled() {
    let raw = RawInput::PointerMotion { delta: place(2.0, -4.0), time: 0x1_0000_0003 };
    for (source, expected) in [
        (InputSource::Host, (3.0, -6.0)),
        (InputSource::Devices, (3.0, -6.0)),
        (InputSource::Thread, (2.0, -4.0)),
    ] {
        match translate_input(source, num(1.5), raw) {
            Some(FloraInputEvent::PointerMotion { delta, time }) => {
                let moved = (f64::from_bits(delta.x.bits), f64::from_bits(delta.y.bits));
                assert_eq!(moved, expected);
                assert_eq!(time, 3);
            }
            _ => panic!("no motion"),
        }
    }
}

#[test]
fn absolute_motion_is_taken_from_every_source() {
    let raw = RawInput::PointerMotionAbsolute { location: place(0.25, 0.5), time: 6 };
    for source in [InputSource::Host, InputSource::Devices, InputSource::Thread] {
        match translate_input(source, num(1.5), raw) {
            Some(FloraInputEvent::PointerMotionAbsolute { location, time }) => {
                assert_eq!(f64::from_bits(location.x.bits), 0.25);
                assert_eq!(f64::from_bits(location.y.bits), 0.5);
                assert_eq!(time, 6);
            }
            _ => panic!("no motion"),
        }
    }
}

#[test]
fn the_pointer_of_a_nested_session_follows_the_host() {
    let mut state = FloraState::new();
    attach_winit(&mut state, output());
    let raw = RawInput::PointerMotionAbsolute { location: place(0.25, 0.5), time: 6 };
    let event = translate_input(InputSource::Host, num(1.5), raw).unwrap();
    handle_input_event(&mut state, event, 1, false);
    assert_eq!(f64::from_bits(state.pointer_location.x.bits), 160.0);
    assert_eq!(f64::from_bits(state.pointer_location.y.bits), 240.0);
}

#[test]
fn keys_and_buttons_are_passed_on() {
    let key = RawInput::Keyboard { keycode: 30, pressed: true, time: 0xffff_ffff_0000_0002 };
    assert!(matches!(
        translate_input(InputSource::Host, num(1.0), key),
        Some(FloraInputEvent::Keyboard { keycode: 30, pressed: true, time: 2 })
    ));
    let button = RawInput::PointerButton { button: 0x110, pressed: false, time: 1 };
    assert!(matches!(
        translate_input(InputSource::Thread, num(1.0), button),
        Some(FloraInputEvent::PointerButton { button: 0x110, pressed: false, time: 1 })
    ));
    assert!(translate_input(InputSource::Devices, num(1.0), RawInput::Other).is_none());
}

#[test]
fn a_new_window_opens_on_top() {
    let mut state = FloraState::new();
    let size = Size { w: 800, h: 600 };
    assert_eq!(
        state.new_toplevel(4, 11),
        vec![
            ShellEffect::Configure { surface: 4, size },
            ShellEffect::FocusKeyboard { surface: 4, serial: 11 },
        ]
    );
    assert!(state.needs_redraw);
    attach_winit(&mut state, output());
    assert_eq!(
        state.new_toplevel(5, 12),
        vec![
            ShellEffect::Configure { surface: 5, size },
            ShellEffect::FocusKeyboard { surface: 5, serial: 12 },
            ShellEffect::EnterOutput { surface: 5 },
        ]
    );
    assert_eq!(state.windows.len(), 2);
    assert_eq!(state.windows[1].surface, 5);
    assert_eq!(state.windows[1].location, Point { x: 100, y: 100 });
    assert_eq!(state.windows[1].size, None);
}

#[test]
fn cursor_images_change_the_cursor() {
    let mut state = FloraState::new();
    state.cursor_image(CursorImage::Surface(8));
    assert_eq!(state.cursor_surface, Some(8));
    assert!(state.needs_redraw);
    finish_frame(&mut state);
    state.cursor_image(CursorImage::Named);
    assert_eq!(state.cursor_surface, Some(8));
    assert!(state.needs_redraw);
    state.cursor_image(CursorImage::Hidden);
    assert_eq!(state.cursor_surface, None);
}

#[test]
fn a_commit_asks_for_a_frame() {
    let mut state = FloraState::new();
    state.commit();
    assert!(state.needs_redraw);
}

#[test]
fn text_input_follows_the_focus() {
    assert_eq!(focus_changed(Some(3)), TextInputChange::Enter { surface: 3 });
    assert_eq!(focus_changed(None), TextInputChange::Leave);
}

#[test]
fn decorations_are_drawn_by_whom_the_client_wants() {
    assert_eq!(decoration_mode(Some(DecorationMode::ClientSide)), DecorationMode::ClientSide);
    assert_eq!(decoration_mode(Some(DecorationMode::ServerSide)), DecorationMode::ServerSide);
    assert_eq!(decoration_mode(None), DecorationMode::ServerSide);
}

#[test]
fn the_loop_draws_and_stops_as_asked() {
    let mut state = FloraState::new();
    assert_eq!(begin_loop(&state), LoopStep::Dispatch);
    assert_eq!(continue_loop(&state, LoopStep::Dispatch, true), LoopStep::Dispatch);
    assert_eq!(continue_loop(&state, LoopStep::Dispatch, false), LoopStep::Stop);
    state.needs_redraw = true;
    assert_eq!(continue_loop(&state, LoopStep::Dispatch, true), LoopStep::Draw);
    assert_eq!(continue_loop(&state, LoopStep::Dispatch, false), LoopStep::Stop);
    state.should_stop = true;
    assert_eq!(continue_loop(&state, LoopStep::Dispatch, true), LoopStep::Draw);
    finish_frame(&mut state);
    assert_eq!(continue_loop(&state, LoopStep::Draw, false), LoopStep::Stop);
    assert_eq!(continue_loop(&state, LoopStep::Dispatch, true), LoopStep::Stop);
    assert_eq!(continue_loop(&state, LoopStep::Stop, true), LoopStep::Stop);
    assert_eq!(begin_loop(&state), LoopStep::Stop);
    state.should_stop = false;
    assert_eq!(continue_loop(&state, LoopStep::Draw, false), LoopStep::Dispatch);
}

#[test]
fn native_frames_prefer_to_have_no_alpha() {
    assert_eq!(scanout_formats(), vec![PixelFormat::Xrgb8888, PixelFormat::Argb8888]);
}
