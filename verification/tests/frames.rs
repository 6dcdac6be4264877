use flora::decorations::{
    create_circle_buffer, generate_circle_rgba, ImageTransform, PixelFormat, BUTTON_SIZE,
    BUTTON_SPACING, GREEN_BUTTON_COLOR, MARGIN, RED_BUTTON_COLOR, YELLOW_BUTTON_COLOR,
};
use flora::frame::{first_step, next_step, FrameStep, StepOutcome};
use flora::geometry::{Point, PointF, Rect, Size};
use flora::ieee::bits::{F32, F64};
use flora::render::{
    buffer_age, button_id, gather_elements, is_layable, is_reported, pending_close, render_frame,
    take_cursor_motion, title_bar_color, title_bar_tint, title_bars, Element, RenderError,
};
use flora::state::{BackendData, FloraState, OutputState};
use flora::window::Window;

fn num(x: f64) -> F64 {
    F64 { bits: x.to_bits() }
}

fn single(x: F32) -> f32 {
    f32::from_bits(x.bits)
}

fn window(surface: u64, x: i32, y: i32, size: Option<Size>) -> Window {
    Window { surface, location: Point { x, y }, size }
}

fn shown(backend: BackendData, scale: f64) -> FloraState {
    let mut state = FloraState::new();
    state.output =
        Some(OutputState { mode: Some(Size { w: 1280, h: 800 }), scale: num(scale) });
    state.backend_data = backend;
    state.has_renderer = backend == BackendData::Drm;
    state.windows.push(window(10, 100, 100, None));
    state.windows.push(window(20, -31, 7, Some(Size { w: 41, h: 50 })));
    state
}

#[test]
fn a_frame_needs_a_mode() {
    let mut state = shown(BackendData::Winit, 1.0);
    state.output = None;
    assert_eq!(render_frame(&state).err(), Some(RenderError::NoOutputMode));
    state.output = Some(OutputState { mode: None, scale: num(1.0) });
    assert_eq!(render_frame(&state).err(), Some(RenderError::NoOutputMode));
}

#[test]
fn a_native_frame_needs_a_renderer() {
    let mut state = shown(BackendData::Drm, 1.0);
    assert!(render_frame(&state).is_ok());
    state.has_renderer = false;
    assert_eq!(render_frame(&state).err(), Some(RenderError::NoRenderer));
    state.backend_data = BackendData::Winit;
    assert!(render_frame(&state).is_ok());
}

#[test]
fn a_frame_begins_at_any_scale() {
    for backend in [BackendData::Unset, BackendData::Winit, BackendData::Drm] {
        let frame = render_frame(&shown(backend, 0.0)).unwrap();
        assert_eq!(frame.output_size, Size { w: 1280, h: 800 });
        assert_eq!(f64::from_bits(frame.scale.bits), 0.0);
    }
}

#[test]
fn windows_are_layable_where_the_scale_divides() {
    let mut state = shown(BackendData::Winit, 1.0);
    assert!(is_layable(&state));
    for (scale, expected) in [(0.0, false), (0.99, false), (-0.5, false), (2.75, true)] {
        assert_eq!(is_layable(&shown(BackendData::Winit, scale)), expected, "{scale}");
    }
    assert!(!is_layable(&shown(BackendData::Winit, f64::NAN)));
    state.windows[0].location.y = i32::MAX - 30;
    assert!(is_layable(&state));
    state.windows[0].location.y = i32::MAX - 29;
    assert!(!is_layable(&state));
    state.windows[0] = window(10, 0, 0, Some(Size { w: -1, h: 5 }));
    assert!(!is_layable(&state));
    state.windows[0] = window(10, 0, 0, Some(Size { w: 0, h: -5 }));
    assert!(is_layable(&state));
    let mut state = shown(BackendData::Winit, -1.0);
    assert!(is_layable(&state));
    state.windows[0].location.x = i32::MIN;
    assert!(!is_layable(&state));
    state.windows.clear();
    state.output = Some(OutputState { mode: None, scale: num(0.0) });
    assert!(is_layable(&state));
}

#[test]
fn bars_are_laid_out_over_their_windows() {
    let bars = title_bars(&shown(BackendData::Winit, 1.0), Some(20));
    assert_eq!(bars.len(), 2);
    let bar = &bars[0];
    assert_eq!(bar.window, 0);
    assert_eq!(
        [single(bar.x), single(bar.y), single(bar.width), single(bar.height)],
        [100.0, 100.0, 800.0, 30.0]
    );
    assert!(!bar.focused);
    assert!(bars[1].focused);
    let centers: Vec<(f32, f32)> =
        bar.buttons.iter().map(|button| (single(button.x), single(button.y))).collect();
    assert_eq!(centers, vec![(110.0, 115.0), (130.0, 115.0), (150.0, 115.0)]);
    for button in &bar.buttons {
        assert_eq!((single(button.radius), single(button.side)), (6.0, 12.0));
    }
    let colors: Vec<[u8; 3]> = bar.buttons.iter().map(|button| button.color).collect();
    assert_eq!(colors, vec![[255, 95, 87], [255, 189, 46], [40, 201, 64]]);
    let names: Vec<&str> = bars[1].buttons.iter().map(|button| button.id.as_str()).collect();
    assert_eq!(names, vec!["btn_1_0", "btn_1_1", "btn_1_2"]);
}

#[test]
fn a_fractional_scale_is_cut_for_the_overlay() {
    let state = shown(BackendData::Drm, 2.75);
    assert_eq!(f64::from_bits(render_frame(&state).unwrap().scale.bits), 2.75);
    let bars = title_bars(&state, None);
    let bar = &bars[0];
    assert_eq!([single(bar.x), single(bar.y), single(bar.width)], [50.0, 50.0, 800.0]);
    let bar = &bars[1];
    assert_eq!([single(bar.x), single(bar.y), single(bar.width)], [-15.0, 3.0, 41.0]);
    assert!(!bar.focused);
}

#[test]
fn button_names_are_written_out() {
    assert_eq!(button_id(0, 2), "btn_0_2");
    assert_eq!(button_id(10, 0), "btn_10_0");
    assert_eq!(button_id(usize::MAX, 1), format!("btn_{}_1", usize::MAX));
    assert_ne!(button_id(1, 0), button_id(10, 0));
}

#[test]
fn bar_colors_have_their_alpha_multiplied_in() {
    assert_eq!(title_bar_tint(true), (40, 40, 40, 200));
    assert_eq!(title_bar_tint(false), (30, 30, 30, 180));
    assert_eq!(title_bar_color(true), (35, 35, 35, 200));
    assert_eq!(title_bar_color(false), (24, 24, 24, 180));
    let color = egui::Color32::from_rgba_unmultiplied(40, 40, 40, 200);
    assert_eq!(title_bar_color(true), (color.r(), color.g(), color.b(), color.a()));
}

#[test]
fn the_last_clicked_close_button_counts() {
    let none = [false, false, false];
    let close = [true, false, false];
    assert_eq!(pending_close(&vec![]), None);
    assert_eq!(pending_close(&vec![none, none]), None);
    assert_eq!(pending_close(&vec![close, none]), Some(0));
    assert_eq!(pending_close(&vec![close, none, close, none]), Some(2));
    assert_eq!(pending_close(&vec![[false, true, true], [false, true, true]]), None);
    assert_eq!(pending_close(&vec![[true, true, true], [false, true, true]]), Some(0));
}

/// All steps of a frame; the steps in `failing` fail.
fn course(
    backend: BackendData,
    pending_close: Option<usize>,
    failing: &[FrameStep],
) -> Vec<FrameStep> {
    let mut steps = Vec::new();
    let mut step = first_step(backend);
    while step != FrameStep::Done {
        steps.push(step);
        let pending_close = if step == FrameStep::Gather { pending_close } else { None };
        let outcome = StepOutcome { succeeded: !failing.contains(&step), pending_close };
        step = next_step(backend, step, outcome);
    }
    steps
}

#[test]
fn a_native_frame_is_committed_whatever_fails() {
    let all = vec![
        FrameStep::Gather,
        FrameStep::Draw,
        FrameStep::Commit,
        FrameStep::Flush,
        FrameStep::Callbacks,
    ];
    assert_eq!(course(BackendData::Drm, None, &[]), all);
    assert_eq!(course(BackendData::Drm, None, &[FrameStep::Draw, FrameStep::Commit]), all);
    assert_eq!(
        course(BackendData::Drm, Some(3), &[FrameStep::Draw]),
        vec![
            FrameStep::Gather,
            FrameStep::Close { window: 3 },
            FrameStep::Draw,
            FrameStep::Commit,
            FrameStep::Flush,
            FrameStep::Callbacks,
        ]
    );
}

#[test]
fn a_nested_frame_is_submitted_if_it_was_drawn() {
    let all = vec![
        FrameStep::Bind,
        FrameStep::Gather,
        FrameStep::Draw,
        FrameStep::Submit,
        FrameStep::Flush,
        FrameStep::Callbacks,
    ];
    assert_eq!(course(BackendData::Winit, None, &[]), all);
    assert_eq!(course(BackendData::Winit, None, &[FrameStep::Submit, FrameStep::Flush]), all);
    assert_eq!(
        course(BackendData::Winit, None, &[FrameStep::Draw]),
        vec![
            FrameStep::Bind,
            FrameStep::Gather,
            FrameStep::Draw,
            FrameStep::Flush,
            FrameStep::Callbacks,
        ]
    );
    assert_eq!(
        course(BackendData::Winit, Some(1), &[FrameStep::Bind]),
        vec![FrameStep::Bind, FrameStep::Flush, FrameStep::Callbacks]
    );
}

#[test]
fn a_nested_frame_is_not_drawn_while_a_window_closes() {
    assert_eq!(
        course(BackendData::Winit, Some(1), &[]),
        vec![
            FrameStep::Bind,
            FrameStep::Gather,
            FrameStep::Close { window: 1 },
            FrameStep::Submit,
            FrameStep::Flush,
            FrameStep::Callbacks,
        ]
    );
}

#[test]
fn a_frame_without_a_backend_only_answers_the_clients() {
    let steps = vec![FrameStep::Flush, FrameStep::Callbacks];
    assert_eq!(course(BackendData::Unset, Some(0), &[]), steps);
    let done = StepOutcome { succeeded: true, pending_close: None };
    assert_eq!(next_step(BackendData::Drm, FrameStep::Done, done), FrameStep::Done);
    for (backend, step) in [
        (BackendData::Drm, FrameStep::Gather),
        (BackendData::Winit, FrameStep::Bind),
        (BackendData::Unset, FrameStep::Flush),
    ] {
        assert_eq!(render_frame(&shown(backend, 1.0)).unwrap().first_step, step);
    }
}

#[test]
fn cursor_motion_is_taken_once() {
    let mut state = shown(BackendData::Winit, 1.0);
    assert!(!take_cursor_motion(&mut state));
    state.pointer_location = PointF { x: num(3.0), y: num(4.0) };
    assert!(take_cursor_motion(&mut state));
    assert_eq!(f64::from_bits(state.last_pointer_location.x.bits), 3.0);
    assert_eq!(f64::from_bits(state.last_pointer_location.y.bits), 4.0);
    assert!(!take_cursor_motion(&mut state));
    state.pointer_location = PointF { x: num(f64::NAN), y: num(4.0) };
    assert!(take_cursor_motion(&mut state));
    assert!(take_cursor_motion(&mut state));
}

#[test]
fn a_moved_cursor_has_everything_drawn() {
    assert_eq!(buffer_age(true, Some(3)), 0);
    assert_eq!(buffer_age(false, Some(3)), 3);
    assert_eq!(buffer_age(false, None), 0);
}

#[test]
fn empty_native_frames_are_not_reported() {
    let empty = "EmptyFrame".to_string();
    assert!(!is_reported(BackendData::Drm, &empty));
    assert!(is_reported(BackendData::Winit, &empty));
    assert!(is_reported(BackendData::Drm, &"EmptyFrame ".to_string()));
    assert!(is_reported(BackendData::Drm, &String::new()));
}

#[test]
fn elements_stand_topmost_window_first() {
    let mut state = shown(BackendData::Winit, 1.0);
    state.cursor_surface = Some(99);
    state.cursor_hotspot = Point { x: 2, y: 3 };
    state.pointer_location = PointF { x: num(10.5), y: num(20.25) };
    let windows = vec![
        Element::Surface { surface: 20, location: Point { x: -31, y: 37 } },
        Element::BarGround {
            surface: 20,
            rect: Rect { location: Point { x: -31, y: 7 }, size: Size { w: 41, h: 30 } },
        },
        Element::Surface { surface: 10, location: Point { x: 100, y: 130 } },
        Element::BarGround {
            surface: 10,
            rect: Rect { location: Point { x: 100, y: 100 }, size: Size { w: 800, h: 30 } },
        },
    ];
    let cursor = Element::Cursor { surface: 99, location: Point { x: 9, y: 17 } };
    let mut all = vec![Element::Overlay];
    all.extend(windows.iter().copied());
    all.push(cursor);
    assert_eq!(gather_elements(&state, true, true), all);
    assert_eq!(gather_elements(&state, false, false), windows);
    state.cursor_surface = None;
    assert_eq!(gather_elements(&state, false, true), windows);
}

#[test]
fn every_window_gets_a_frame_callback() {
    let state = shown(BackendData::Winit, 1.0);
    assert_eq!(state.send_frame_callbacks(1234), vec![(10, 1234), (20, 1234)]);
    assert_eq!(state.send_frame_callbacks(0x1_0000_0005), vec![(10, 5), (20, 5)]);
    assert!(FloraState::new().send_frame_callbacks(7).is_empty());
}

#[test]
fn a_button_image_is_a_disc() {
    let image = create_circle_buffer(BUTTON_SIZE, RED_BUTTON_COLOR);
    assert_eq!(image.size, Size { w: 12, h: 12 });
    assert_eq!(image.scale, 1);
    assert_eq!(image.format, PixelFormat::Abgr8888);
    assert_eq!(image.transform, ImageTransform::Normal);
    assert_eq!(image.opaque_regions, None);
    assert_eq!(image.pixels, generate_circle_rgba(12, RED_BUTTON_COLOR));
    assert_eq!(image.pixels.len(), 12 * 12 * 4);
    let pixel = |x: usize, y: usize| {
        let at = (y * 12 + x) * 4;
        [image.pixels[at], image.pixels[at + 1], image.pixels[at + 2], image.pixels[at + 3]]
    };
    assert_eq!(pixel(0, 0), [0, 0, 0, 0]);
    assert_eq!(pixel(6, 6), RED_BUTTON_COLOR);
    assert_eq!(pixel(5, 0), [255, 95, 87, 249]);
    for y in 0..12usize {
        for x in 0..12usize {
            assert_eq!(pixel(x, y), pixel(11 - x, y));
            assert_eq!(pixel(x, y), pixel(x, 11 - y));
            assert_eq!(pixel(x, y), pixel(y, x));
            let (dx, dy) = (2 * x as i32 - 11, 2 * y as i32 - 11);
            let spread = dx * dx + dy * dy;
            assert_eq!(spread <= 121, pixel(x, y) == RED_BUTTON_COLOR);
            assert_eq!(spread > 169, pixel(x, y) == [0, 0, 0, 0]);
        }
    }
    assert!(create_circle_buffer(0, RED_BUTTON_COLOR).pixels.is_empty());
}

#[test]
fn a_button_image_fades_outward_in_one_color() {
    for size in [1i32, 2, 9, 12, 33] {
        for color in [RED_BUTTON_COLOR, [10, 20, 30, 77], [1, 2, 3, 0]] {
            let image = create_circle_buffer(size, color);
            let mut seen: Vec<(i32, u8)> = Vec::new();
            for y in 0..size {
                for x in 0..size {
                    let at = ((y * size + x) * 4) as usize;
                    let pixel = &image.pixels[at..at + 4];
                    assert!(pixel[3] <= color[3]);
                    assert!(pixel[..3] == color[..3] || *pixel == [0, 0, 0, 0]);
                    let (dx, dy) = (2 * x + 1 - size, 2 * y + 1 - size);
                    seen.push((dx * dx + dy * dy, pixel[3]));
                }
            }
            seen.sort();
            for pair in seen.windows(2) {
                assert!(pair[0].1 >= pair[1].1);
            }
        }
    }
}

#[test]
fn button_colors_and_measures() {
    assert_eq!(RED_BUTTON_COLOR, [255, 95, 87, 255]);
    assert_eq!(YELLOW_BUTTON_COLOR, [255, 189, 46, 255]);
    assert_eq!(GREEN_BUTTON_COLOR, [40, 200, 64, 255]);
    assert_eq!((BUTTON_SIZE, BUTTON_SPACING, MARGIN), (12, 8, 10));
}
