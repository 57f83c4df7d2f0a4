use nwv_bridge::codec::{Command, PathAnswer};
use nwv_bridge::dispatch::{route_line, Routed};
use nwv_bridge::interp::{apply, step_line, ShellAction, ShellState, StepResult};

fn bv(s: &str) -> Vec<u8> {
    s.as_bytes().to_vec()
}

// Lines without the protocol prefix never produce a command or an answer.
#[test]
fn unprefixed_lines_are_ignored() {
    assert_eq!(route_line(&bv("hello world")), Routed::Ignored);
    assert_eq!(route_line(&bv("{\"type\":\"close\"}")), Routed::Ignored);
    assert_eq!(route_line(&bv("ioc:{\"type\":\"close\"}")), Routed::Ignored);
    assert_eq!(route_line(&bv("")), Routed::Ignored);
    assert_eq!(route_line(&bv("_ioc")), Routed::Ignored);
}

#[test]
fn unknown_command_type_is_rejected_not_fatal() {
    assert_eq!(route_line(&bv("_ioc:{\"type\":\"bogus\"}")), Routed::Malformed);
}

#[test]
fn unknown_command_changes_no_state() {
    let mut state = ShellState::new();
    let before = state.clone();
    let out = step_line(&mut state, &bv("_ioc:{\"type\":\"bogus\"}"));
    assert_eq!(out, StepResult::FrameRejected);
    assert_eq!(state, before);
}

#[test]
fn invalid_json_is_rejected() {
    assert_eq!(route_line(&bv("_ioc:not json at all")), Routed::Malformed);
    assert_eq!(route_line(&bv("_ioc:{\"type\":\"title\"")), Routed::Malformed);
}

#[test]
fn fractional_pixels_are_rejected() {
    // Dimensions are integral logical pixels; a fraction fails the frame.
    assert_eq!(
        route_line(&bv("_ioc:{\"type\":\"innerSize\",\"width\":800.5,\"height\":600}")),
        Routed::Malformed
    );
}

#[test]
fn empty_payload_is_rejected() {
    assert_eq!(route_line(&bv("_ioc:{}")), Routed::Malformed);
}

#[test]
fn spaced_payload_is_rejected() {
    // Frames are compact JSON, as both ends of the protocol emit them; a
    // frame with insignificant whitespace is rejected and logged, not fatal.
    assert_eq!(route_line(&bv("_ioc:{\"type\": \"close\"}")), Routed::Malformed);
}

#[test]
fn oversized_number_is_rejected() {
    assert_eq!(
        route_line(&bv("_ioc:{\"type\":\"innerSize\",\"width\":99999999999999999999999,\"height\":1}")),
        Routed::Malformed
    );
}

#[test]
fn answer_with_extra_fields_still_matches_structurally() {
    let line = bv("_ioc:{\"type\":\"x\",\"url\":\"nwv://a\",\"path\":\"./a\",\"mimetype\":\"t\"}");
    assert_eq!(
        route_line(&line),
        Routed::Answer(PathAnswer { url: bv("nwv://a"), path: bv("./a"), mimetype: bv("t") })
    );
}

#[test]
fn path_answer_is_matched_before_command() {
    let line = bv("_ioc:{\"url\":\"nwv://a\",\"path\":\"./a\",\"mimetype\":\"text/html\"}");
    assert_eq!(
        route_line(&line),
        Routed::Answer(PathAnswer { url: bv("nwv://a"), path: bv("./a"), mimetype: bv("text/html") })
    );
}

#[test]
fn command_frames_decode() {
    assert_eq!(route_line(&bv("_ioc:{\"type\":\"focus\"}")), Routed::Cmd(Command::Focus));
    assert_eq!(route_line(&bv("_ioc:{\"type\":\"close\"}")), Routed::Cmd(Command::Close));
    assert_eq!(
        route_line(&bv("_ioc:{\"type\":\"eval\",\"js\":\"1+1\"}")),
        Routed::Cmd(Command::Eval { js: bv("1+1") })
    );
    assert_eq!(
        route_line(&bv("_ioc:{\"type\":\"title\",\"title\":\"Hi\"}")),
        Routed::Cmd(Command::Title { title: bv("Hi") })
    );
    assert_eq!(
        route_line(&bv("_ioc:{\"type\":\"windowIcon\",\"path\":\"./icon.png\"}")),
        Routed::Cmd(Command::WindowIcon { path: bv("./icon.png") })
    );
    assert_eq!(
        route_line(&bv("_ioc:{\"type\":\"resizable\",\"resizable\":false}")),
        Routed::Cmd(Command::Resizable { resizable: false })
    );
    assert_eq!(
        route_line(&bv("_ioc:{\"type\":\"innerSize\",\"width\":800,\"height\":600}")),
        Routed::Cmd(Command::InnerSize { width: 800, height: 600 })
    );
    assert_eq!(
        route_line(&bv("_ioc:{\"type\":\"minInnerSize\",\"width\":100,\"height\":50}")),
        Routed::Cmd(Command::MinInnerSize { width: 100, height: 50 })
    );
    assert_eq!(
        route_line(&bv("_ioc:{\"type\":\"maxInnerSize\",\"width\":1920,\"height\":1080}")),
        Routed::Cmd(Command::MaxInnerSize { width: 1920, height: 1080 })
    );
    assert_eq!(
        route_line(&bv("_ioc:{\"type\":\"outerPosition\",\"top\":-5,\"left\":10}")),
        Routed::Cmd(Command::OuterPosition { top: -5, left: 10 })
    );
    assert_eq!(
        route_line(&bv("_ioc:{\"type\":\"alwaysOnTop\",\"always\":true}")),
        Routed::Cmd(Command::AlwaysOnTop { always: true })
    );
    assert_eq!(
        route_line(&bv("_ioc:{\"type\":\"decorations\",\"decorations\":false}")),
        Routed::Cmd(Command::Decorations { decorations: false })
    );
    assert_eq!(
        route_line(&bv("_ioc:{\"type\":\"fullscreen\",\"fullscreen\":true}")),
        Routed::Cmd(Command::Fullscreen { fullscreen: true })
    );
    assert_eq!(
        route_line(&bv("_ioc:{\"type\":\"maximized\",\"maximized\":true}")),
        Routed::Cmd(Command::Maximized { maximized: true })
    );
    assert_eq!(
        route_line(&bv("_ioc:{\"type\":\"minimized\",\"minimized\":false}")),
        Routed::Cmd(Command::Minimized { minimized: false })
    );
}

#[test]
fn serde_produced_frame_decodes() {
    // A frame built by a real JSON library (keys in whatever order it keeps)
    // still decodes to the same command.
    let mut m = serde_json::Map::new();
    m.insert("type".to_string(), serde_json::Value::String("title".to_string()));
    m.insert("title".to_string(), serde_json::Value::String("From serde".to_string()));
    let line = format!("_ioc:{}", serde_json::Value::Object(m));
    assert_eq!(
        route_line(&line.into_bytes()),
        Routed::Cmd(Command::Title { title: bv("From serde") })
    );
}

// Applying an idempotent command twice leaves the state it left after once.
#[test]
fn title_twice_is_idempotent() {
    let mut once = ShellState::new();
    apply(&mut once, &Command::Title { title: bv("x") });
    let mut twice = once.clone();
    apply(&mut twice, &Command::Title { title: bv("x") });
    assert_eq!(twice, once);
}

#[test]
fn close_is_terminal_and_emits_one_end() {
    let mut state = ShellState::new();
    let out = step_line(&mut state, &bv("_ioc:{\"type\":\"close\"}"));
    assert_eq!(out, StepResult::Commanded(vec![ShellAction::EmitEnd]));
    assert!(state.terminal);
    // Nothing further is applied or emitted once terminal.
    let out2 = step_line(&mut state, &bv("_ioc:{\"type\":\"close\"}"));
    assert_eq!(out2, StepResult::Commanded(vec![]));
    let before = state.clone();
    let out3 = step_line(&mut state, &bv("_ioc:{\"type\":\"title\",\"title\":\"late\"}"));
    assert_eq!(out3, StepResult::Commanded(vec![]));
    assert_eq!(state, before);
}

#[test]
fn commands_apply_in_order_and_update_state() {
    let mut state = ShellState::new();
    let a1 = apply(&mut state, &Command::Title { title: bv("t") });
    assert_eq!(a1, vec![ShellAction::SetTitle(bv("t"))]);
    let a2 = apply(&mut state, &Command::InnerSize { width: 640, height: 480 });
    assert_eq!(a2, vec![ShellAction::SetInnerSize(640, 480)]);
    let a3 = apply(&mut state, &Command::Eval { js: bv("go()") });
    assert_eq!(a3, vec![ShellAction::EvalScript(bv("go()"))]);
    assert_eq!(state.title, bv("t"));
    assert_eq!(state.inner_size, Some((640, 480)));
    assert!(!state.terminal);
}
