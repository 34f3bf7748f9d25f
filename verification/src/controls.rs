use vstd::prelude::*;

verus! {

/// What the input helper reports after a batch of window events.
#[derive(Clone, Copy, Debug)]
pub struct Keys {
    /// Escape was pressed.
    pub escape: bool,
    /// The window was asked to close.
    pub quit: bool,
    /// The left arrow was pressed.
    pub left: bool,
    /// The right arrow was pressed.
    pub right: bool,
    /// The window's new inner size, if it was resized.
    pub resized: Option<(u32, u32)>,
}

/// An event of the window loop, as the loop hands it on for a decision.
#[derive(Clone, Copy, Debug)]
pub enum LoopEvent {
    /// A frame was drawn and handed to the screen; `ok` tells whether that
    /// succeeded.
    Rendered { ok: bool },
    /// The input helper finished a batch of events.
    Input(Keys),
}

/// The side to which the camera steps.
#[derive(Clone, Copy, Debug, PartialEq, Eq, Structural)]
pub enum CameraStep {
    Left,
    Right,
}

/// What the window loop does next.
#[derive(Clone, Copy, Debug, PartialEq, Eq)]
pub struct Response {
    /// Leave the loop (after reporting the elapsed time).
    pub exit: bool,
    /// Step the camera sideways and rebuild it.
    pub step: Option<CameraStep>,
    /// Ask the window for a new frame.
    pub redraw: bool,
    /// Resize the drawing surface to this size.
    pub resize: Option<(u32, u32)>,
}

/// The loop's answer to an event: a failed render ends the loop; so do
/// Escape and a close request, before anything else is done. Otherwise the
/// left arrow steps the camera left, or else the right arrow steps it
/// right, either asking for a new frame; and a resize of the window resizes
/// the surface.
pub open spec fn answer(event: LoopEvent) -> Response {
    match event {
        LoopEvent::Rendered { ok } => Response { exit: !ok, step: None, redraw: false, resize: None },
        LoopEvent::Input(keys) => if keys.escape || keys.quit {
            Response { exit: true, step: None, redraw: false, resize: None }
        } else {
            let step = if keys.left {
                Some(CameraStep::Left)
            } else if keys.right {
                Some(CameraStep::Right)
            } else {
                None
            };
            Response { exit: false, step: step, redraw: step is Some, resize: keys.resized }
        },
    }
}

/// Decides what the window loop does after `event`.
pub fn respond(event: &LoopEvent) -> (r: Response)
    ensures
        r == answer(*event),
{
    match event {
        LoopEvent::Rendered { ok } => Response { exit: !*ok, step: None, redraw: false, resize: None },
        LoopEvent::Input(keys) => {
            if keys.escape || keys.quit {
                return Response { exit: true, step: None, redraw: false, resize: None };
            }
            let step = if keys.left {
                Some(CameraStep::Left)
            } else if keys.right {
                Some(CameraStep::Right)
            } else {
                None
            };
            let redraw = step.is_some();
            Response { exit: false, step: step, redraw: redraw, resize: keys.resized }
        },
    }
}

/// Leaving the loop overrides everything else: an answer that exits steps
/// no camera, asks for no frame and resizes nothing; and a frame is asked
/// for exactly when the camera steps.
pub proof fn lemma_exit_overrides(event: LoopEvent)
    ensures
        answer(event).exit ==> answer(event).step is None && !answer(event).redraw
            && answer(event).resize is None,
        answer(event).redraw <==> answer(event).step is Some,
{
}

/// Escape or a close request always ends the loop. Without either, the loop
/// goes on; it resizes the surface to whatever size the batch reports,
/// arrows or not; the left arrow steps the camera left, the right arrow
/// (alone) steps it right, no arrow leaves it; and a frame is asked for
/// exactly when an arrow was pressed.
pub proof fn lemma_input_answer(keys: Keys)
    ensures
        (keys.escape || keys.quit) ==> answer(LoopEvent::Input(keys)).exit,
        !(keys.escape || keys.quit) ==> {
            let a = answer(LoopEvent::Input(keys));
            &&& !a.exit
            &&& a.resize == keys.resized
            &&& keys.left ==> a.step == Some(CameraStep::Left)
            &&& (!keys.left && keys.right) ==> a.step == Some(CameraStep::Right)
            &&& (!keys.left && !keys.right) ==> a.step is None
            &&& a.redraw == (keys.left || keys.right)
        },
{
}

/// After a frame is drawn the loop ends exactly when drawing failed, and
/// does nothing else.
pub proof fn lemma_render_answer(ok: bool)
    ensures
        answer(LoopEvent::Rendered { ok }).exit == !ok,
        answer(LoopEvent::Rendered { ok }).step is None,
        !answer(LoopEvent::Rendered { ok }).redraw,
        answer(LoopEvent::Rendered { ok }).resize is None,
{
}

} // verus!
