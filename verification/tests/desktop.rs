use flora::geometry::{Point, PointF, Size};
use flora::ieee::bits::F64;
use flora::input::{
    clamp_pointer, forward_pointer_motion, forward_pointer_to_egui, handle_input_event,
    handle_pointer_button, is_admitted, overlay_input, update_grab, Effect, FloraInputEvent, MouseButton,
    PointerFocus,
};
use flora::state::{get_output_scale, BackendData, FloraState, OutputState};
use flora::window::{hit_test_window, HitRegion, Window, TITLE_BAR_HEIGHT};

fn num(x: f64) -> F64 {
    F64 { bits: x.to_bits() }
}

fn place(x: f64, y: f64) -> PointF {
    PointF { x: num(x), y: num(y) }
}

fn pair(p: PointF) -> (f64, f64) {
    (f64::from_bits(p.x.bits), f64::from_bits(p.y.bits))
}

fn window(surface: u64, x: i32, y: i32, w: i32, h: i32) -> Window {
    Window { surface, location: Point { x, y }, size: Some(Size { w, h }) }
}

fn desktop(scale: f64) -> FloraState {
    let mut state = FloraState::new();
    state.output =
        Some(OutputState { mode: Some(Size { w: 1280, h: 800 }), scale: num(scale) });
    state
}

fn surfaces(state: &FloraState) -> Vec<u64> {
    state.windows.iter().map(|window| window.surface).collect()
}

fn press(state: &mut FloraState, button: u32, pressed: bool) -> Vec<Effect> {
    let event = FloraInputEvent::PointerButton { button, pressed, time: 5 };
    handle_input_event(state, event, 77, false)
}

fn move_to(state: &mut FloraState, x: f64, y: f64) -> Vec<Effect> {
    let (from_x, from_y) = pair(state.pointer_location);
    let event = FloraInputEvent::PointerMotion { delta: place(x - from_x, y - from_y), time: 9 };
    handle_input_event(state, event, 78, false)
}

fn focus_of(effect: &Effect) -> Option<PointerFocus> {
    match effect {
        Effect::PointerMotion { under, .. } => *under,
        _ => panic!("no motion"),
    }
}

#[test]
fn a_new_state_is_empty() {
    let state = FloraState::new();
    assert!(state.output.is_none());
    assert!(!state.should_stop);
    assert!(state.drm_devices.is_empty());
    assert!(!state.has_renderer);
    assert_eq!(state.backend_data, BackendData::Unset);
    assert!(state.windows.is_empty());
    assert_eq!(pair(state.pointer_location), (0.0, 0.0));
    assert!(state.grab_state.is_none());
    assert!(!state.needs_redraw);
    assert!(state.cursor_surface.is_none());
    assert_eq!(state.cursor_hotspot, Point { x: 0, y: 0 });
    assert_eq!(pair(state.last_pointer_location), (0.0, 0.0));
}

#[test]
fn the_scale_is_one_without_an_output() {
    assert_eq!(f64::from_bits(get_output_scale(&FloraState::new()).bits), 1.0);
    assert_eq!(f64::from_bits(get_output_scale(&desktop(1.25)).bits), 1.25);
    assert_eq!(FloraState::new().output_mode(), None);
    assert_eq!(desktop(1.0).output_mode(), Some(Size { w: 1280, h: 800 }));
}

#[test]
fn hit_test_tells_bar_client_and_outside() {
    let size = Size { w: 800, h: 600 };
    let at = |x: f64, y: f64| hit_test_window(place(x, y), place(100.0, 100.0), size);
    assert_eq!(at(100.0, 100.0), HitRegion::TitleBar);
    assert_eq!(at(899.9, 129.9), HitRegion::TitleBar);
    assert_eq!(at(100.0, 130.0), HitRegion::Client { local_x: 0, local_y: 0 });
    assert_eq!(at(350.0, 400.0), HitRegion::Client { local_x: 250, local_y: 270 });
    assert_eq!(at(899.0, 729.0), HitRegion::Client { local_x: 799, local_y: 599 });
    assert_eq!(at(99.9, 110.0), HitRegion::Outside);
    assert_eq!(at(900.0, 110.0), HitRegion::Outside);
    assert_eq!(at(110.0, 99.9), HitRegion::Outside);
    assert_eq!(at(110.0, 730.0), HitRegion::Outside);
    assert_eq!(at(f64::NAN, 110.0), HitRegion::Outside);
    assert_eq!(at(110.0, f64::NAN), HitRegion::Outside);
}

#[test]
fn hit_test_rounds_to_the_nearest_pixel() {
    let size = Size { w: 10, h: 10 };
    let at = |x: f64, y: f64| hit_test_window(place(x, y), place(0.0, 0.0), size);
    assert_eq!(at(2.5, 32.5), HitRegion::Client { local_x: 3, local_y: 3 });
    assert_eq!(at(2.4, 32.4), HitRegion::Client { local_x: 2, local_y: 2 });
    assert_eq!(at(9.75, 39.75), HitRegion::Client { local_x: 10, local_y: 10 });
}

#[test]
fn hit_test_needs_no_height_above_the_client_area() {
    let size = Size { w: 10, h: i32::MAX };
    let at = |x: f64, y: f64| hit_test_window(place(x, y), place(0.0, 0.0), size);
    assert_eq!(at(5.0, 5.0), HitRegion::TitleBar);
    assert_eq!(at(5.0, -5.0), HitRegion::Outside);
    assert_eq!(at(15.0, 500.0), HitRegion::Outside);
}

#[test]
fn a_window_without_a_size_has_the_default_one() {
    let open = Window { surface: 1, location: Point { x: 0, y: 0 }, size: None };
    assert_eq!(open.surface_size(), Size { w: 800, h: 600 });
    assert_eq!(window(1, 0, 0, 5, 6).surface_size(), Size { w: 5, h: 6 });
    assert_eq!(TITLE_BAR_HEIGHT, 30);
}

#[test]
fn the_pointer_is_clamped_to_the_output() {
    for (from, to) in [
        ((-5.0, 900.0), (0.0, 800.0)),
        ((1280.5, -0.5), (1280.0, 0.0)),
        ((640.25, 400.75), (640.25, 400.75)),
        ((f64::NAN, f64::INFINITY), (0.0, 800.0)),
        ((f64::NEG_INFINITY, 3.0), (0.0, 3.0)),
    ] {
        let mut state = desktop(1.0);
        state.pointer_location = place(from.0, from.1);
        clamp_pointer(&mut state);
        assert_eq!(pair(state.pointer_location), to);
    }
    let mut state = FloraState::new();
    state.pointer_location = place(-5.0, 9000.0);
    clamp_pointer(&mut state);
    assert_eq!(pair(state.pointer_location), (-5.0, 9000.0));
}

#[test]
fn motion_moves_the_pointer_and_tells_everyone() {
    let mut state = desktop(2.0);
    state.windows.push(window(7, 0, 0, 300, 300));
    let event = FloraInputEvent::PointerMotion { delta: place(101.0, 201.0), time: 4 };
    let effects = handle_input_event(&mut state, event, 12, false);
    assert_eq!(pair(state.pointer_location), (101.0, 201.0));
    assert!(state.needs_redraw);
    assert_eq!(effects.len(), 2);
    assert!(matches!(effects[0], Effect::OverlayMotion { at: Point { x: 50, y: 100 } }));
    match effects[1] {
        Effect::PointerMotion { under, location, serial, time } => {
            let local = Point { x: 51, y: 71 };
            assert_eq!(under, Some(PointerFocus { surface: 7, local }));
            assert_eq!(pair(location), (50.5, 100.5));
            assert_eq!((serial, time), (12, 4));
        }
        _ => panic!("no motion"),
    }
}

#[test]
fn motion_stays_on_the_output() {
    let mut state = desktop(1.0);
    for (x, y) in [(1e300, -1e300), (f64::NAN, 5000.0), (-3.5, 12.25), (1e-300, 0.5)] {
        let event = FloraInputEvent::PointerMotion { delta: place(x, y), time: 0 };
        handle_input_event(&mut state, event, 0, false);
        let (x, y) = pair(state.pointer_location);
        assert!((0.0..=1280.0).contains(&x) && (0.0..=800.0).contains(&y));
    }
}

#[test]
fn absolute_motion_spans_the_output() {
    let mut state = desktop(1.0);
    for (share, to) in [
        ((0.0, 0.0), (0.0, 0.0)),
        ((1.0, 1.0), (1280.0, 800.0)),
        ((0.5, 0.25), (640.0, 200.0)),
        ((1.5, -1.0), (1280.0, 0.0)),
    ] {
        let location = place(share.0, share.1);
        let event = FloraInputEvent::PointerMotionAbsolute { location, time: 1 };
        let effects = handle_input_event(&mut state, event, 3, false);
        assert_eq!(pair(state.pointer_location), to);
        assert_eq!(effects.len(), 2);
    }
    let mut state = FloraState::new();
    state.pointer_location = place(3.0, 4.0);
    let event = FloraInputEvent::PointerMotionAbsolute { location: place(0.5, 0.5), time: 1 };
    handle_input_event(&mut state, event, 3, false);
    assert_eq!(pair(state.pointer_location), (3.0, 4.0));
}

#[test]
fn keys_go_to_the_keyboard() {
    let mut state = desktop(1.0);
    state.windows.push(window(1, 0, 0, 10, i32::MAX));
    let event = FloraInputEvent::Keyboard { keycode: 30, pressed: true, time: 8 };
    let effects = handle_input_event(&mut state, event, 41, true);
    assert!(state.needs_redraw);
    assert_eq!(effects.len(), 1);
    assert!(matches!(
        effects[0],
        Effect::KeyboardInput { keycode: 30, pressed: true, serial: 41, time: 8 }
    ));
}

#[test]
fn the_overlay_is_told_of_three_buttons() {
    let told = |button: u32, pressed: bool| {
        overlay_input(&FloraInputEvent::PointerButton { button, pressed, time: 0 })
    };
    assert_eq!(told(0x110, true), Some((MouseButton::Left, true)));
    assert_eq!(told(0x111, false), Some((MouseButton::Right, false)));
    assert_eq!(told(0x112, true), Some((MouseButton::Middle, true)));
    assert_eq!(told(0x113, true), None);
    let key = FloraInputEvent::Keyboard { keycode: 0x110, pressed: true, time: 0 };
    assert_eq!(overlay_input(&key), None);
}

#[test]
fn the_overlay_may_keep_a_button() {
    let mut state = desktop(1.0);
    state.windows.push(window(1, 0, 0, 100, 100));
    state.windows.push(window(2, 500, 500, 100, 100));
    state.grab_state = Some((1, place(1.0, 1.0)));
    let effects =
        handle_pointer_button(&mut state, 0x110, true, 0, num(1.0), 1, true);
    assert!(effects.is_empty());
    assert!(state.needs_redraw);
    assert_eq!(surfaces(&state), vec![1, 2]);
    assert!(state.grab_state.is_some());
    handle_pointer_button(&mut state, 0x110, false, 0, num(1.0), 1, true);
    assert!(state.grab_state.is_some());
}

#[test]
fn a_press_on_a_client_raises_and_focuses() {
    let mut state = desktop(1.0);
    state.windows.push(window(1, 0, 0, 100, 100));
    state.windows.push(window(2, 500, 100, 100, 100));
    state.windows.push(window(3, 700, 100, 100, 100));
    state.pointer_location = place(50.0, 80.0);
    let effects = press(&mut state, 0x110, true);
    assert_eq!(surfaces(&state), vec![2, 3, 1]);
    assert!(state.grab_state.is_none());
    assert_eq!(effects.len(), 2);
    assert!(matches!(effects[0], Effect::FocusKeyboard { surface: 1, serial: 77 }));
    assert!(matches!(
        effects[1],
        Effect::PointerButton { button: 0x110, pressed: true, serial: 77, time: 5 }
    ));
}

#[test]
fn a_press_beside_every_window_is_only_forwarded() {
    let mut state = desktop(1.0);
    state.windows.push(window(1, 0, 0, 100, 100));
    state.pointer_location = place(600.0, 600.0);
    let effects = press(&mut state, 0x111, true);
    assert_eq!(effects.len(), 1);
    assert!(matches!(effects[0], Effect::PointerButton { button: 0x111, pressed: true, .. }));
    assert!(state.grab_state.is_none());
    assert!(state.needs_redraw);
}

#[test]
fn a_press_hits_the_topmost_window() {
    let mut state = desktop(1.0);
    state.windows.push(window(1, 0, 0, 200, 200));
    state.windows.push(window(2, 50, 50, 200, 200));
    state.pointer_location = place(60.0, 60.0);
    let effects = press(&mut state, 0x110, true);
    assert!(matches!(effects[0], Effect::FocusKeyboard { surface: 2, .. }));
    assert_eq!(surfaces(&state), vec![1, 2]);
    assert_eq!(state.grab_state.map(|(index, offset)| (index, pair(offset))), Some((1, (10.0, 10.0))));
}

#[test]
fn a_drag_follows_the_pointer_until_the_release() {
    let mut state = desktop(1.0);
    state.windows.push(window(1, 100, 100, 300, 200));
    state.windows.push(window(2, 500, 100, 300, 200));
    state.pointer_location = place(120.0, 110.0);
    press(&mut state, 0x110, true);
    assert_eq!(surfaces(&state), vec![2, 1]);
    assert_eq!(state.windows[1].location, Point { x: 100, y: 100 });
    update_grab(&mut state);
    assert_eq!(state.windows[1].location, Point { x: 100, y: 100 });
    move_to(&mut state, 170.0, 90.0);
    assert_eq!(state.windows[1].location, Point { x: 150, y: 80 });
    move_to(&mut state, 170.5, 90.4);
    assert_eq!(state.windows[1].location, Point { x: 151, y: 80 });
    assert_eq!(state.windows[0].location, Point { x: 500, y: 100 });
    let effects = press(&mut state, 0x110, false);
    assert_eq!(effects.len(), 1);
    assert!(state.grab_state.is_none());
    move_to(&mut state, 300.0, 300.0);
    assert_eq!(state.windows[1].location, Point { x: 151, y: 80 });
}

#[test]
fn a_drag_of_a_window_that_is_gone_moves_none() {
    let mut state = desktop(1.0);
    state.windows.push(window(1, 100, 100, 300, 200));
    state.grab_state = Some((1, place(0.0, 0.0)));
    state.pointer_location = place(5.0, 5.0);
    update_grab(&mut state);
    assert_eq!(state.windows[0].location, Point { x: 100, y: 100 });
}

#[test]
fn motion_looks_through_bars() {
    let mut state = desktop(1.0);
    state.windows.push(window(1, 0, 0, 400, 400));
    state.windows.push(window(2, 0, 100, 400, 400));
    state.pointer_location = place(50.0, 110.0);
    let effect = forward_pointer_motion(&state, 1, num(1.0), 2);
    assert_eq!(
        focus_of(&effect),
        Some(PointerFocus { surface: 1, local: Point { x: 50, y: 80 } })
    );
    state.pointer_location = place(50.0, 140.0);
    let effect = forward_pointer_motion(&state, 1, num(1.0), 2);
    assert_eq!(
        focus_of(&effect),
        Some(PointerFocus { surface: 2, local: Point { x: 50, y: 10 } })
    );
    state.pointer_location = place(450.0, 140.0);
    assert_eq!(focus_of(&forward_pointer_motion(&state, 1, num(1.0), 2)), None);
}

#[test]
fn the_overlay_location_is_cut_toward_zero() {
    let mut state = desktop(1.0);
    state.pointer_location = place(9.99, 7.5);
    assert_eq!(forward_pointer_to_egui(&state, num(1.0)), Point { x: 9, y: 7 });
    assert_eq!(forward_pointer_to_egui(&state, num(2.0)), Point { x: 4, y: 3 });
    assert_eq!(forward_pointer_to_egui(&state, num(0.0)), Point { x: i32::MAX, y: i32::MAX });
    state.pointer_location = place(0.0, -1.5);
    assert_eq!(forward_pointer_to_egui(&state, num(0.0)), Point { x: 0, y: i32::MIN });
    assert_eq!(forward_pointer_to_egui(&state, num(1.0)), Point { x: 0, y: -1 });
}

#[test]
fn scale_one_leaves_places_alone() {
    for (x, y) in [(0.1, -0.0), (1e-310, 5e307), (123.456, -7.0)] {
        assert_eq!(pair(place(x, y).to_logical(num(1.0))), (x, y));
    }
    assert_eq!(pair(place(3.0, 5.0).to_physical(num(1.5))), (4.5, 7.5));
    assert_eq!(pair(place(3.0, 5.0).to_logical(num(2.0))), (1.5, 2.5));
}

#[test]
fn events_are_refused_only_where_a_height_is_needed() {
    let mut state = desktop(1.0);
    state.windows.push(window(1, 0, 0, 100, i32::MAX - 29));
    state.windows.push(window(2, 500, 0, 100, 100));
    let key = FloraInputEvent::Keyboard { keycode: 1, pressed: true, time: 0 };
    let button =
        |pressed: bool| FloraInputEvent::PointerButton { button: 0x110, pressed, time: 0 };
    let motion =
        |x: f64, y: f64| FloraInputEvent::PointerMotion { delta: place(x, y), time: 0 };
    state.pointer_location = place(50.0, 20.0);
    assert!(is_admitted(&state, &button(true), false));
    assert!(is_admitted(&state, &motion(100.0, 100.0), false));
    assert!(!is_admitted(&state, &motion(0.0, 10.0), false));
    assert!(is_admitted(&state, &key, false));
    state.pointer_location = place(50.0, 30.0);
    assert!(!is_admitted(&state, &button(true), false));
    assert!(is_admitted(&state, &button(false), false));
    assert!(is_admitted(&state, &button(true), true));
    assert!(is_admitted(&state, &key, false));
    let share = |x: f64, y: f64| {
        FloraInputEvent::PointerMotionAbsolute { location: place(x, y), time: 0 }
    };
    assert!(!is_admitted(&state, &share(0.05, 0.5), false));
    assert!(is_admitted(&state, &share(0.5, 0.5), false));
    state.grab_state = Some((0, place(0.0, 0.0)));
    assert!(is_admitted(&state, &share(0.05, 0.5), false));
    state.grab_state = None;
    state.windows[0].size = Some(Size { w: 100, h: i32::MAX - 30 });
    assert!(is_admitted(&state, &button(true), false));
    state.windows[0].size = Some(Size { w: 100, h: i32::MAX });
    state.windows.push(window(3, 0, 0, 100, 100));
    assert!(is_admitted(&state, &button(true), false));
}
