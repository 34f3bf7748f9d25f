use raytracer::controls::{respond, CameraStep, Keys, LoopEvent, Response};

fn keys() -> Keys {
    Keys { escape: false, quit: false, left: false, right: false, resized: None }
}

fn idle() -> Response {
    Response { exit: false, step: None, redraw: false, resize: None }
}

#[test]
fn render_failure_exits() {
    assert_eq!(respond(&LoopEvent::Rendered { ok: false }), Response { exit: true, ..idle() });
    assert_eq!(respond(&LoopEvent::Rendered { ok: true }), idle());
}

#[test]
fn escape_or_quit_exits_first() {
    let k = Keys { escape: true, left: true, resized: Some((800, 600)), ..keys() };
    assert_eq!(respond(&LoopEvent::Input(k)), Response { exit: true, ..idle() });
    let q = Keys { quit: true, right: true, ..keys() };
    assert_eq!(respond(&LoopEvent::Input(q)), Response { exit: true, ..idle() });
}

#[test]
fn left_wins_over_right() {
    let k = Keys { left: true, right: true, ..keys() };
    assert_eq!(
        respond(&LoopEvent::Input(k)),
        Response { step: Some(CameraStep::Left), redraw: true, ..idle() }
    );
}

#[test]
fn right_steps_right() {
    let k = Keys { right: true, ..keys() };
    assert_eq!(
        respond(&LoopEvent::Input(k)),
        Response { step: Some(CameraStep::Right), redraw: true, ..idle() }
    );
}

#[test]
fn resize_passes_through() {
    let k = Keys { resized: Some((640, 480)), left: true, ..keys() };
    assert_eq!(
        respond(&LoopEvent::Input(k)),
        Response { step: Some(CameraStep::Left), redraw: true, resize: Some((640, 480)), ..idle() }
    );
    assert_eq!(respond(&LoopEvent::Input(keys())), idle());
}
