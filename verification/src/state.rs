//! The state of the compositor.

use vstd::prelude::*;

use crate::geometry::{double, Place, Point, PointF, Size};
use crate::ieee::bits::F64;
use crate::ieee::format::Float;
use crate::window::{bar_fits, Window};

verus! {

/// The output as the compositor sees it: the size of its current mode, and its
/// fractional scale.
#[derive(Clone, Copy, Debug)]
pub struct OutputState {
    pub mode: Option<Size>,
    pub scale: F64,
}

/// What an `OutputState` stands for.
pub struct Screen {
    pub mode: Option<Size>,
    pub scale: Float,
}

impl View for OutputState {
    type V = Screen;

    open spec fn view(&self) -> Screen {
        Screen { mode: self.mode, scale: self.scale@ }
    }
}

/// The backend that frames go to.
#[derive(Clone, Copy, PartialEq, Eq, Structural, Debug)]
pub enum BackendData {
    Drm,
    Winit,
    Unset,
}

/// The state of the compositor. Surfaces are known by keys, device paths by
/// their bytes. The last window is the topmost.
pub struct FloraState {
    pub output: Option<OutputState>,
    pub should_stop: bool,
    pub drm_devices: Vec<Vec<u8>>,
    pub has_renderer: bool,
    pub backend_data: BackendData,
    pub windows: Vec<Window>,
    pub pointer_location: PointF,
    /// The window being dragged, and where in it the pointer holds it.
    pub grab_state: Option<(usize, PointF)>,
    pub needs_redraw: bool,
    pub cursor_surface: Option<u64>,
    pub cursor_hotspot: Point,
    /// Where the pointer was when the cursor was last drawn.
    pub last_pointer_location: PointF,
}

/// What a `FloraState` stands for.
#[verifier::ext_equal]
pub struct Desktop {
    pub output: Option<Screen>,
    pub should_stop: bool,
    pub drm_devices: Seq<Seq<u8>>,
    pub has_renderer: bool,
    pub backend_data: BackendData,
    pub windows: Seq<Window>,
    pub pointer: Place,
    pub grab: Option<(int, Place)>,
    pub needs_redraw: bool,
    pub cursor_surface: Option<u64>,
    pub cursor_hotspot: Point,
    pub last_pointer: Place,
}

pub open spec fn grab_view(grab: Option<(usize, PointF)>) -> Option<(int, Place)> {
    match grab {
        Some((index, offset)) => Some((index as int, offset@)),
        None => None,
    }
}

pub open spec fn output_view(output: Option<OutputState>) -> Option<Screen> {
    match output {
        Some(output) => Some(output@),
        None => None,
    }
}

pub open spec fn paths_view(paths: Seq<Vec<u8>>) -> Seq<Seq<u8>> {
    paths.map_values(|path: Vec<u8>| path@)
}

impl View for FloraState {
    type V = Desktop;

    open spec fn view(&self) -> Desktop {
        Desktop {
            output: output_view(self.output),
            should_stop: self.should_stop,
            drm_devices: paths_view(self.drm_devices@),
            has_renderer: self.has_renderer,
            backend_data: self.backend_data,
            windows: self.windows@,
            pointer: self.pointer_location@,
            grab: grab_view(self.grab_state),
            needs_redraw: self.needs_redraw,
            cursor_surface: self.cursor_surface,
            cursor_hotspot: self.cursor_hotspot,
            last_pointer: self.last_pointer_location@,
        }
    }
}

impl Desktop {
    /// Before any client, device or event.
    pub open spec fn initial() -> Desktop {
        Desktop {
            output: None,
            should_stop: false,
            drm_devices: Seq::empty(),
            has_renderer: false,
            backend_data: BackendData::Unset,
            windows: Seq::empty(),
            pointer: Place::of(Point { x: 0, y: 0 }),
            grab: None,
            needs_redraw: false,
            cursor_surface: None,
            cursor_hotspot: Point { x: 0, y: 0 },
            last_pointer: Place::of(Point { x: 0, y: 0 }),
        }
    }

    /// Size of the current mode, where there is an output that has one.
    pub open spec fn mode(self) -> Option<Size> {
        match self.output {
            Some(screen) => screen.mode,
            None => None,
        }
    }

    /// Scale of the output, one without an output.
    pub open spec fn scale(self) -> Float {
        match self.output {
            Some(screen) => screen.scale,
            None => double(1),
        }
    }

    /// Every window has a height, bar and client area together.
    pub open spec fn windows_fit(self) -> bool {
        forall|i: int|
            0 <= i < self.windows.len() ==> bar_fits((#[trigger] self.windows[i]).client_size())
    }

    /// A drag is of a window that is there.
    pub open spec fn grab_in_range(self) -> bool {
        self.grab matches Some((index, offset)) ==> 0 <= index < self.windows.len()
    }
}

impl FloraState {
    pub fn new() -> (r: FloraState)
        ensures
            r@ == Desktop::initial(),
    {
        let r = FloraState {
            output: None,
            should_stop: false,
            drm_devices: Vec::new(),
            has_renderer: false,
            backend_data: BackendData::Unset,
            windows: Vec::new(),
            pointer_location: PointF::origin(),
            grab_state: None,
            needs_redraw: false,
            cursor_surface: None,
            cursor_hotspot: Point { x: 0, y: 0 },
            last_pointer_location: PointF::origin(),
        };
        assert(r@ =~= Desktop::initial());
        r
    }

    /// Size of the current mode.
    pub fn output_mode(&self) -> (r: Option<Size>)
        ensures
            r == self@.mode(),
    {
        match &self.output {
            Some(output) => output.mode,
            None => None,
        }
    }
}

/// Scale of the output, one without an output.
pub fn get_output_scale(state: &FloraState) -> (r: F64)
    ensures
        r@ == state@.scale(),
{
    match &state.output {
        Some(output) => output.scale,
        None => F64::from_i32(1),
    }
}

} // verus!
