//! The course of a frame: which step follows which.

use vstd::prelude::*;

use crate::state::{BackendData, Desktop};

verus! {

/// A step of a frame.
#[derive(Debug, Clone, Copy, PartialEq, Eq, Structural)]
pub enum FrameStep {
    /// Make the window of the host ready to be drawn on.
    Bind,
    /// Draw the overlay, take in the clicks on it, and collect the elements.
    Gather,
    /// Ask the client of a window to close it.
    Close { window: usize },
    /// Draw the elements.
    Draw,
    /// Hand what was drawn to the display controller.
    Commit,
    /// Hand what was drawn to the host.
    Submit,
    /// Send what is waiting for the clients.
    Flush,
    /// Tell the clients that the frame is done.
    Callbacks,
    /// The frame is over.
    Done,
}

/// What a step came to. `pending_close` is the window whose close button was
/// clicked, as gathering finds it.
#[derive(Debug, Clone, Copy, PartialEq, Eq, Structural)]
pub struct StepOutcome {
    pub succeeded: bool,
    pub pending_close: Option<usize>,
}

/// The first step of a frame.
pub open spec fn opening(backend: BackendData) -> FrameStep {
    match backend {
        BackendData::Drm => FrameStep::Gather,
        BackendData::Winit => FrameStep::Bind,
        BackendData::Unset => FrameStep::Flush,
    }
}

/// The step after a step. A native frame is committed even if it could not be
/// drawn. A nested frame is not drawn while a window is asked to close, and not
/// submitted if it could not be drawn.
pub open spec fn following(backend: BackendData, step: FrameStep, outcome: StepOutcome) -> FrameStep {
    match step {
        FrameStep::Bind => if outcome.succeeded {
            FrameStep::Gather
        } else {
            FrameStep::Flush
        },
        FrameStep::Gather => match outcome.pending_close {
            Some(window) => FrameStep::Close { window },
            None => FrameStep::Draw,
        },
        FrameStep::Close { .. } => if backend == BackendData::Winit {
            FrameStep::Submit
        } else {
            FrameStep::Draw
        },
        FrameStep::Draw => if backend != BackendData::Winit {
            FrameStep::Commit
        } else if outcome.succeeded {
            FrameStep::Submit
        } else {
            FrameStep::Flush
        },
        FrameStep::Commit => FrameStep::Flush,
        FrameStep::Submit => FrameStep::Flush,
        FrameStep::Flush => FrameStep::Callbacks,
        FrameStep::Callbacks => FrameStep::Done,
        FrameStep::Done => FrameStep::Done,
    }
}

/// Begins a frame.
pub fn first_step(backend: BackendData) -> (r: FrameStep)
    ensures
        r == opening(backend),
{
    match backend {
        BackendData::Drm => FrameStep::Gather,
        BackendData::Winit => FrameStep::Bind,
        BackendData::Unset => FrameStep::Flush,
    }
}

/// Goes on with a frame after a step.
pub fn next_step(backend: BackendData, step: FrameStep, outcome: StepOutcome) -> (r: FrameStep)
    ensures
        r == following(backend, step, outcome),
{
    match step {
        FrameStep::Bind => if outcome.succeeded {
            FrameStep::Gather
        } else {
            FrameStep::Flush
        },
        FrameStep::Gather => match outcome.pending_close {
            Some(window) => FrameStep::Close { window },
            None => FrameStep::Draw,
        },
        FrameStep::Close { window: _ } => match backend {
            BackendData::Winit => FrameStep::Submit,
            _ => FrameStep::Draw,
        },
        FrameStep::Draw => match backend {
            BackendData::Winit => if outcome.succeeded {
                FrameStep::Submit
            } else {
                FrameStep::Flush
            },
            _ => FrameStep::Commit,
        },
        FrameStep::Commit => FrameStep::Flush,
        FrameStep::Submit => FrameStep::Flush,
        FrameStep::Flush => FrameStep::Callbacks,
        FrameStep::Callbacks => FrameStep::Done,
        FrameStep::Done => FrameStep::Done,
    }
}

/// How many steps may be left.
pub open spec fn steps_left(step: FrameStep) -> nat {
    match step {
        FrameStep::Bind => 7,
        FrameStep::Gather => 6,
        FrameStep::Close { .. } => 5,
        FrameStep::Draw => 4,
        FrameStep::Commit => 3,
        FrameStep::Submit => 3,
        FrameStep::Flush => 2,
        FrameStep::Callbacks => 1,
        FrameStep::Done => 0,
    }
}

/// All steps from one on, given what each comes to.
pub open spec fn course(
    backend: BackendData,
    step: FrameStep,
    outcomes: spec_fn(FrameStep) -> StepOutcome,
) -> Seq<FrameStep>
    decreases steps_left(step),
{
    if step == FrameStep::Done {
        Seq::empty()
    } else {
        seq![step] + course(backend, following(backend, step, outcomes(step)), outcomes)
    }
}

/// All steps of a frame, given what each comes to.
pub open spec fn frame_course(
    backend: BackendData,
    outcomes: spec_fn(FrameStep) -> StepOutcome,
) -> Seq<FrameStep> {
    course(backend, opening(backend), outcomes)
}

/// How often a step occurs.
pub open spec fn times_taken(steps: Seq<FrameStep>, step: FrameStep) -> nat {
    times_taken_before(steps, step, steps.len())
}

/// How often a step occurs before a place.
pub open spec fn times_taken_before(steps: Seq<FrameStep>, step: FrameStep, end: nat) -> nat
    decreases end,
{
    if end == 0 {
        0
    } else {
        times_taken_before(steps, step, (end - 1) as nat) + if steps[end - 1] == step {
            1nat
        } else {
            0
        }
    }
}

/// The steps that ask a window to close, if one is to be asked.
pub open spec fn closing(pending_close: Option<usize>) -> Seq<FrameStep> {
    match pending_close {
        Some(window) => seq![FrameStep::Close { window }],
        None => Seq::empty(),
    }
}

/// The end of every frame.
pub open spec fn ending() -> Seq<FrameStep> {
    seq![FrameStep::Flush, FrameStep::Callbacks]
}

/// The whole course of a frame. A native frame is drawn and committed whatever
/// fails, after the window to close, if any, has been told. A nested frame that
/// could be bound tells that window and submits without drawing; without such a
/// window it draws, and submits if that succeeded.
pub proof fn law_course_of_a_frame(
    backend: BackendData,
    outcomes: spec_fn(FrameStep) -> StepOutcome,
)
    ensures
        ({
            let bound = outcomes(FrameStep::Bind).succeeded;
            let pending_close = outcomes(FrameStep::Gather).pending_close;
            let drawn = outcomes(FrameStep::Draw).succeeded;
            frame_course(backend, outcomes) == match backend {
                BackendData::Drm => seq![FrameStep::Gather] + closing(pending_close) + seq![
                    FrameStep::Draw,
                    FrameStep::Commit,
                ] + ending(),
                BackendData::Winit => if !bound {
                    seq![FrameStep::Bind] + ending()
                } else if pending_close is Some {
                    seq![FrameStep::Bind, FrameStep::Gather] + closing(pending_close) + seq![
                        FrameStep::Submit,
                    ] + ending()
                } else if drawn {
                    seq![
                        FrameStep::Bind,
                        FrameStep::Gather,
                        FrameStep::Draw,
                        FrameStep::Submit,
                    ] + ending()
                } else {
                    seq![FrameStep::Bind, FrameStep::Gather, FrameStep::Draw] + ending()
                },
                BackendData::Unset => ending(),
            }
        }),
{
    reveal_with_fuel(course, 8);
}

/// Every frame that is not refused ends by flushing the clients, once, and then
/// answering their callbacks, once, whatever its steps came to.
pub proof fn law_frame_ends_in_flush_and_callbacks(
    desktop: Desktop,
    outcomes: spec_fn(FrameStep) -> StepOutcome,
)
    requires
        desktop.frame_error() is None,
    ensures
        ({
            let steps = frame_course(desktop.backend_data, outcomes);
            &&& steps.len() >= 2
            &&& steps.skip(steps.len() - 2) == ending()
            &&& times_taken(steps, FrameStep::Flush) == 1
            &&& times_taken(steps, FrameStep::Callbacks) == 1
        }),
{
    law_course_of_a_frame(desktop.backend_data, outcomes);
    let steps = frame_course(desktop.backend_data, outcomes);
    assert(steps.skip(steps.len() - 2) =~= ending());
    reveal_with_fuel(times_taken_before, 8);
}

/// Where gathering is reached, the window whose close button was clicked is
/// told to close, once, and no other is; without one none is told.
pub proof fn law_only_the_clicked_window_is_closed(
    backend: BackendData,
    outcomes: spec_fn(FrameStep) -> StepOutcome,
    window: usize,
)
    ensures
        ({
            let steps = frame_course(backend, outcomes);
            let told = times_taken(steps, FrameStep::Close { window });
            let gathered = steps.contains(FrameStep::Gather);
            told == if gathered && outcomes(FrameStep::Gather).pending_close == Some(window) {
                1nat
            } else {
                0
            }
        }),
        frame_course(backend, outcomes).contains(FrameStep::Gather) <==> (backend
            == BackendData::Drm || (backend == BackendData::Winit && outcomes(
            FrameStep::Bind,
        ).succeeded)),
{
    law_course_of_a_frame(backend, outcomes);
    let steps = frame_course(backend, outcomes);
    reveal_with_fuel(times_taken_before, 8);
    if backend == BackendData::Drm {
        assert(steps[0] == FrameStep::Gather);
    } else if backend == BackendData::Winit && outcomes(FrameStep::Bind).succeeded {
        assert(steps[1] == FrameStep::Gather);
    }
}

/// A native frame is committed, once, whatever else fails. A nested one is
/// submitted, once, exactly if it was bound and was either drawn or held back
/// for a window that closes.
pub proof fn law_what_follows_a_failure(
    backend: BackendData,
    outcomes: spec_fn(FrameStep) -> StepOutcome,
)
    ensures
        times_taken(frame_course(backend, outcomes), FrameStep::Commit) == if backend
            == BackendData::Drm {
            1nat
        } else {
            0
        },
        times_taken(frame_course(backend, outcomes), FrameStep::Submit) == if backend
            == BackendData::Winit && outcomes(FrameStep::Bind).succeeded && (outcomes(
            FrameStep::Gather,
        ).pending_close is Some || outcomes(FrameStep::Draw).succeeded) {
            1nat
        } else {
            0
        },
{
    law_course_of_a_frame(backend, outcomes);
    reveal_with_fuel(times_taken_before, 8);
}

} // verus!
