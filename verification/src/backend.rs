//! Choices of the graphics and input backends.

use vstd::prelude::*;
use vstd::string::*;

use crate::decorations::PixelFormat;
use crate::geometry::Size;

verus! {

/// Why no output could be set up on a device.
#[derive(Debug, Clone, Copy, PartialEq, Eq, Structural)]
pub enum DrmError {
    NoConnectedConnector,
    NoMode,
    NoCompatibleCrtc,
}

/// A mode of an output, with its refresh rate in millihertz.
#[derive(Debug, Clone, Copy, PartialEq, Eq, Structural)]
pub struct OutputMode {
    pub size: Size,
    pub refresh: i32,
}

/// The connector is connected, and none before it is.
pub open spec fn first_connected(connected: Seq<Option<bool>>, index: int) -> bool {
    &&& 0 <= index < connected.len()
    &&& connected[index] == Some(true)
    &&& forall|i: int| 0 <= i < index ==> #[trigger] connected[i] != Some(true)
}

/// The choice is the first connector that is connected, or that none is.
pub open spec fn chooses_connector(
    connected: Seq<Option<bool>>,
    choice: Result<usize, DrmError>,
) -> bool {
    match choice {
        Ok(index) => first_connected(connected, index as int),
        Err(error) => {
            &&& error == DrmError::NoConnectedConnector
            &&& forall|i: int| 0 <= i < connected.len() ==> #[trigger] connected[i] != Some(true)
        },
    }
}

/// Chooses the first connector that answers and is connected. A connector that
/// could not be asked is `None`.
pub fn choose_connector(connected: &Vec<Option<bool>>) -> (r: Result<usize, DrmError>)
    ensures
        chooses_connector(connected@, r),
{
    let mut i: usize = 0;
    while i < connected.len()
        invariant
            i <= connected@.len(),
            forall|j: int| 0 <= j < i ==> #[trigger] connected@[j] != Some(true),
        decreases connected@.len() - i,
    {
        if let Some(true) = connected[i] {
            return Ok(i);
        }
        i = i + 1;
    }
    Err(DrmError::NoConnectedConnector)
}

/// The mode that is chosen of so many.
pub open spec fn chosen_mode(modes: usize) -> Result<usize, DrmError> {
    if modes > 0 {
        Ok(0)
    } else {
        Err(DrmError::NoMode)
    }
}

/// Chooses the first of the modes of a connector, given how many it has.
pub fn choose_mode(modes: usize) -> (r: Result<usize, DrmError>)
    ensures
        r == chosen_mode(modes),
{
    if modes > 0 {
        Ok(0)
    } else {
        Err(DrmError::NoMode)
    }
}

/// The encoder can drive a display controller.
pub open spec fn has_crtc(crtcs: Option<Vec<u32>>) -> bool {
    crtcs is Some && crtcs->0@.len() > 0
}

/// The encoder has a controller, and none before it has.
pub open spec fn first_with_crtc(encoders: Seq<Option<Vec<u32>>>, index: int) -> bool {
    &&& 0 <= index < encoders.len()
    &&& has_crtc(encoders[index])
    &&& forall|i: int| 0 <= i < index ==> !has_crtc(#[trigger] encoders[i])
}

/// The choice is the first controller of the first encoder that has one, or that
/// none has.
pub open spec fn chooses_crtc(
    encoders: Seq<Option<Vec<u32>>>,
    choice: Result<u32, DrmError>,
) -> bool {
    match choice {
        Ok(crtc) => exists|index: int|
            {
                &&& #[trigger] first_with_crtc(encoders, index)
                &&& crtc == encoders[index]->0@[0]
            },
        Err(error) => {
            &&& error == DrmError::NoCompatibleCrtc
            &&& forall|i: int| 0 <= i < encoders.len() ==> !has_crtc(#[trigger] encoders[i])
        },
    }
}

/// Chooses the first controller of the first encoder that answers and has one.
/// An encoder that could not be asked is `None`.
pub fn choose_crtc(encoders: &Vec<Option<Vec<u32>>>) -> (r: Result<u32, DrmError>)
    ensures
        chooses_crtc(encoders@, r),
{
    let mut i: usize = 0;
    while i < encoders.len()
        invariant
            i <= encoders@.len(),
            forall|j: int| 0 <= j < i ==> !has_crtc(#[trigger] encoders@[j]),
        decreases encoders@.len() - i,
    {
        if let Some(crtcs) = &encoders[i] {
            if crtcs.len() > 0 {
                assert(first_with_crtc(encoders@, i as int));
                return Ok(crtcs[0]);
            }
        }
        i = i + 1;
    }
    Err(DrmError::NoCompatibleCrtc)
}

/// An integer brought into the range of `i32` by wrapping around.
pub open spec fn wrapped_i32(n: int) -> int {
    if n % 0x1_0000_0000 >= 0x8000_0000 {
        n % 0x1_0000_0000 - 0x1_0000_0000
    } else {
        n % 0x1_0000_0000
    }
}

/// The mode of an output from the mode of its connector, whose refresh rate is
/// given in hertz.
pub open spec fn native_mode(width: u16, height: u16, vrefresh: u32) -> OutputMode {
    OutputMode {
        size: Size { w: width as i32, h: height as i32 },
        refresh: wrapped_i32(vrefresh * 1000) as i32,
    }
}

/// Makes the mode of an output from the mode of its connector.
pub fn drm_output_mode(width: u16, height: u16, vrefresh: u32) -> (r: OutputMode)
    requires
        vrefresh * 1000 <= u32::MAX,
    ensures
        r == native_mode(width, height, vrefresh),
        r.size == (Size { w: width as i32, h: height as i32 }),
        r.refresh == wrapped_i32(vrefresh * 1000),
{
    let millihertz: u32 = vrefresh * 1000;
    let refresh: i32 = if millihertz >= 0x8000_0000 {
        (millihertz as i64 - 0x1_0000_0000) as i32
    } else {
        millihertz as i32
    };
    OutputMode { size: Size { w: width as i32, h: height as i32 }, refresh }
}

/// The formats that a native frame may have, the preferred one first.
pub fn scanout_formats() -> (r: Vec<PixelFormat>)
    ensures
        r@ == seq![PixelFormat::Xrgb8888, PixelFormat::Argb8888],
{
    vec![PixelFormat::Xrgb8888, PixelFormat::Argb8888]
}

/// The mode of a nested output: the size of its window, at sixty hertz.
pub fn nested_output_mode(size: Size) -> (r: OutputMode)
    ensures
        r == (OutputMode { size, refresh: 60_000 }),
{
    OutputMode { size, refresh: 60_000 }
}

/// `part` occurs in `whole` at `at`.
pub open spec fn occurs_at(whole: Seq<u8>, part: Seq<u8>, at: int) -> bool {
    0 <= at && at + part.len() <= whole.len() && whole.subrange(at, at + part.len()) == part
}

pub open spec fn occurs_in(whole: Seq<u8>, part: Seq<u8>) -> bool {
    exists|at: int| occurs_at(whole, part, at)
}

/// Bytes of a text of ASCII characters.
pub open spec fn ascii(text: Seq<char>) -> Seq<u8> {
    text.map_values(|c: char| c as u8)
}

fn matches_at(whole: &Vec<u8>, part: &Vec<u8>, at: usize) -> (r: bool)
    requires
        at + part@.len() <= whole@.len(),
    ensures
        r == occurs_at(whole@, part@, at as int),
{
    let mut i: usize = 0;
    let ghost piece = whole@.subrange(at as int, at + part@.len());
    while i < part.len()
        invariant
            i <= part@.len(),
            at + part.len() <= whole.len(),
            piece == whole@.subrange(at as int, at + part@.len()),
            forall|j: int| 0 <= j < i ==> #[trigger] piece[j] == part@[j],
        decreases part@.len() - i,
    {
        if whole[at + i] != part[i] {
            assert(piece[i as int] != part@[i as int]);
            return false;
        }
        i = i + 1;
    }
    assert(piece =~= part@);
    true
}

fn contains_bytes(whole: &Vec<u8>, part: &Vec<u8>) -> (r: bool)
    ensures
        r == occurs_in(whole@, part@),
{
    if part.len() > whole.len() {
        return false;
    }
    let last: usize = whole.len() - part.len();
    let mut at: usize = 0;
    loop
        invariant
            at <= last,
            last + part@.len() == whole@.len(),
            forall|j: int| 0 <= j < at ==> !occurs_at(whole@, part@, j),
        decreases last - at,
    {
        if matches_at(whole, part, at) {
            return true;
        }
        if at == last {
            return false;
        }
        at = at + 1;
    }
}

/// Devices worth trying have "card" or "render" somewhere in their path.
pub open spec fn is_drm_path(path: Seq<u8>) -> bool {
    occurs_in(path, ascii("card"@)) || occurs_in(path, ascii("render"@))
}

/// Whether the path is that of a graphics device.
pub fn is_drm_device(path: &Vec<u8>) -> (r: bool)
    ensures
        r == is_drm_path(path@),
{
    let card: Vec<u8> = vec![0x63, 0x61, 0x72, 0x64];
    let render: Vec<u8> = vec![0x72, 0x65, 0x6e, 0x64, 0x65, 0x72];
    proof {
        reveal_strlit("card");
        reveal_strlit("render");
        assert(card@ =~= ascii("card"@));
        assert(render@ =~= ascii("render"@));
    }
    contains_bytes(path, &card) || contains_bytes(path, &render)
}

/// The path of an input device, by its name in the device directory. Only the
/// names that start with "event" are of input devices.
pub open spec fn device_path(name: Seq<char>) -> Option<Seq<char>> {
    if "event"@.is_prefix_of(name) {
        Some("/dev/input/"@ + name)
    } else {
        None
    }
}

/// Finds the path of an input device by its name.
pub fn input_device_path(name: &String) -> (r: Option<String>)
    ensures
        match r {
            Some(path) => device_path(name@) == Some(path@),
            None => device_path(name@) is None,
        },
{
    proof {
        reveal_strlit("event");
    }
    let text: &str = name.as_str();
    if text.unicode_len() < 5 {
        return None;
    }
    let start: String = text.substring_char(0, 5).to_owned();
    let event: String = "event".to_owned();
    assert(start@ == event@ <==> "event"@.is_prefix_of(name@)) by {
        if start@ == event@ {
            assert(forall|i: int| 0 <= i < 5 ==> name@[i] == start@[i]);
        } else if "event"@.is_prefix_of(name@) {
            assert(start@ =~= event@);
        }
    }
    if start == event {
        let directory: String = "/dev/input/".to_owned();
        Some(directory.concat(text))
    } else {
        None
    }
}

/// How the switch of the terminal to graphics mode goes on.
#[derive(Debug, Clone, Copy, PartialEq, Eq, Structural)]
pub enum TtyStep {
    /// Open this terminal and switch it.
    Try { attempt: usize },
    /// This terminal is in graphics mode; keep it open.
    Switched { attempt: usize },
    /// None could be switched; go on without.
    GaveUp,
}

/// The terminals that are tried, in order.
pub open spec fn tty_paths() -> Seq<Seq<char>> {
    seq!["/dev/tty0"@, "/dev/tty"@]
}

/// The terminal of an attempt.
pub fn tty_path(attempt: usize) -> (r: String)
    requires
        attempt < 2,
    ensures
        r@ == tty_paths()[attempt as int],
{
    if attempt == 0 {
        "/dev/tty0".to_owned()
    } else {
        "/dev/tty".to_owned()
    }
}

/// How the switch goes on after an attempt.
pub open spec fn after_attempt(attempt: usize, outcome: Option<i32>) -> TtyStep {
    if outcome == Some(0i32) {
        TtyStep::Switched { attempt }
    } else if attempt + 1 < tty_paths().len() {
        TtyStep::Try { attempt: (attempt + 1) as usize }
    } else {
        TtyStep::GaveUp
    }
}

/// Goes on after an attempt: `None` if the terminal did not open, else what the
/// switch returned, zero for success.
pub fn tty_step(attempt: usize, outcome: Option<i32>) -> (r: TtyStep)
    requires
        attempt < 2,
    ensures
        r == after_attempt(attempt, outcome),
{
    if let Some(0) = outcome {
        TtyStep::Switched { attempt }
    } else if attempt == 0 {
        TtyStep::Try { attempt: 1 }
    } else {
        TtyStep::GaveUp
    }
}

/// The first terminal that can be switched is used, and each is tried at most
/// once.
pub proof fn law_first_terminal_is_used(first: Option<i32>, second: Option<i32>)
    ensures
        first == Some(0i32) ==> after_attempt(0, first) == (TtyStep::Switched { attempt: 0 }),
        first != Some(0i32) ==> after_attempt(0, first) == (TtyStep::Try { attempt: 1 }),
        second == Some(0i32) ==> after_attempt(1, second) == (TtyStep::Switched { attempt: 1 }),
        second != Some(0i32) ==> after_attempt(1, second) == TtyStep::GaveUp,
{
}

} // verus!
