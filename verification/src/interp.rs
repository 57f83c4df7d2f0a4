//! The command interpreter: a state machine over the shell's window state.
//! It runs on the event-loop thread; each decoded command is applied once, in
//! arrival order, and yields the actions the surrounding loop must perform on
//! the real window. `Close` is terminal: afterwards nothing is applied and
//! nothing further is emitted.
use vstd::prelude::*;

use crate::codec::{Command, GCommand, GPathAnswer, PathAnswer};
use crate::dispatch::{spec_route, GRouted, route_line, Routed};
use crate::json::copy_bytes;

verus! {

/// The shell state the interpreter tracks. Sizes and positions are integral
/// logical pixels; `None` means the host never set the value.
#[derive(Debug, Clone, PartialEq, Eq)]
pub struct ShellState {
    pub terminal: bool,
    pub title: Vec<u8>,
    pub resizable: bool,
    pub decorations: bool,
    pub always_on_top: bool,
    pub fullscreen: bool,
    pub maximized: bool,
    pub minimized: bool,
    pub inner_size: Option<(u64, u64)>,
    pub min_inner_size: Option<(u64, u64)>,
    pub max_inner_size: Option<(u64, u64)>,
    pub outer_position: Option<(i64, i64)>,
    pub window_icon: Option<Vec<u8>>,
}

/// The shell state as the contracts speak of it.
pub struct GShellState {
    pub terminal: bool,
    pub title: Seq<u8>,
    pub resizable: bool,
    pub decorations: bool,
    pub always_on_top: bool,
    pub fullscreen: bool,
    pub maximized: bool,
    pub minimized: bool,
    pub inner_size: Option<(u64, u64)>,
    pub min_inner_size: Option<(u64, u64)>,
    pub max_inner_size: Option<(u64, u64)>,
    pub outer_position: Option<(i64, i64)>,
    pub window_icon: Option<Seq<u8>>,
}

impl View for ShellState {
    type V = GShellState;

    open spec fn view(&self) -> GShellState {
        GShellState {
            terminal: self.terminal,
            title: self.title@,
            resizable: self.resizable,
            decorations: self.decorations,
            always_on_top: self.always_on_top,
            fullscreen: self.fullscreen,
            maximized: self.maximized,
            minimized: self.minimized,
            inner_size: self.inner_size,
            min_inner_size: self.min_inner_size,
            max_inner_size: self.max_inner_size,
            outer_position: self.outer_position,
            window_icon: match &self.window_icon {
                Some(p) => Some(p@),
                None => None,
            },
        }
    }
}

/// What a fresh shell looks like before any command arrives.
pub open spec fn init_state() -> GShellState {
    GShellState {
        terminal: false,
        title: Seq::empty(),
        resizable: true,
        decorations: true,
        always_on_top: false,
        fullscreen: false,
        maximized: false,
        minimized: false,
        inner_size: None,
        min_inner_size: None,
        max_inner_size: None,
        outer_position: None,
        window_icon: None,
    }
}

impl ShellState {
    /// A fresh shell state.
    pub fn new() -> (r: ShellState)
        ensures
            r@ == init_state(),
    {
        let r = ShellState {
            terminal: false,
            title: Vec::new(),
            resizable: true,
            decorations: true,
            always_on_top: false,
            fullscreen: false,
            maximized: false,
            minimized: false,
            inner_size: None,
            min_inner_size: None,
            max_inner_size: None,
            outer_position: None,
            window_icon: None,
        };
        assert(r@.title =~= init_state().title);
        r
    }
}

/// One side effect the surrounding event loop must perform on the window.
#[derive(Debug, Clone, PartialEq, Eq)]
pub enum ShellAction {
    EvalScript(Vec<u8>),
    FocusWindow,
    SetTitle(Vec<u8>),
    SetWindowIcon(Vec<u8>),
    SetResizable(bool),
    SetInnerSize(u64, u64),
    SetMinInnerSize(u64, u64),
    SetMaxInnerSize(u64, u64),
    SetOuterPosition(i64, i64),
    SetAlwaysOnTop(bool),
    SetDecorations(bool),
    SetFullscreen(bool),
    SetMaximized(bool),
    SetMinimized(bool),
    /// Emit the final `End` event and leave the loop.
    EmitEnd,
}

/// An action as the contracts speak of it.
pub enum GShellAction {
    EvalScript(Seq<u8>),
    FocusWindow,
    SetTitle(Seq<u8>),
    SetWindowIcon(Seq<u8>),
    SetResizable(bool),
    SetInnerSize(u64, u64),
    SetMinInnerSize(u64, u64),
    SetMaxInnerSize(u64, u64),
    SetOuterPosition(i64, i64),
    SetAlwaysOnTop(bool),
    SetDecorations(bool),
    SetFullscreen(bool),
    SetMaximized(bool),
    SetMinimized(bool),
    EmitEnd,
}

impl View for ShellAction {
    type V = GShellAction;

    open spec fn view(&self) -> GShellAction {
        match self {
            ShellAction::EvalScript(js) => GShellAction::EvalScript(js@),
            ShellAction::FocusWindow => GShellAction::FocusWindow,
            ShellAction::SetTitle(t) => GShellAction::SetTitle(t@),
            ShellAction::SetWindowIcon(p) => GShellAction::SetWindowIcon(p@),
            ShellAction::SetResizable(b) => GShellAction::SetResizable(*b),
            ShellAction::SetInnerSize(w, h) => GShellAction::SetInnerSize(*w, *h),
            ShellAction::SetMinInnerSize(w, h) => GShellAction::SetMinInnerSize(*w, *h),
            ShellAction::SetMaxInnerSize(w, h) => GShellAction::SetMaxInnerSize(*w, *h),
            ShellAction::SetOuterPosition(t, l) => GShellAction::SetOuterPosition(*t, *l),
            ShellAction::SetAlwaysOnTop(b) => GShellAction::SetAlwaysOnTop(*b),
            ShellAction::SetDecorations(b) => GShellAction::SetDecorations(*b),
            ShellAction::SetFullscreen(b) => GShellAction::SetFullscreen(*b),
            ShellAction::SetMaximized(b) => GShellAction::SetMaximized(*b),
            ShellAction::SetMinimized(b) => GShellAction::SetMinimized(*b),
            ShellAction::EmitEnd => GShellAction::EmitEnd,
        }
    }
}

pub open spec fn actions_view(acts: Seq<ShellAction>) -> Seq<GShellAction> {
    acts.map_values(|a: ShellAction| a@)
}

/// The state after one command. A terminal shell never changes.
pub open spec fn state_after(s: GShellState, c: GCommand) -> GShellState {
    if s.terminal {
        s
    } else {
        match c {
            GCommand::Focus => s,
            GCommand::Close => GShellState { terminal: true, ..s },
            GCommand::Eval { js } => s,
            GCommand::Title { title } => GShellState { title, ..s },
            GCommand::WindowIcon { path } => GShellState { window_icon: Some(path), ..s },
            GCommand::Resizable { resizable } => GShellState { resizable, ..s },
            GCommand::InnerSize { width, height } => GShellState {
                inner_size: Some((width, height)),
                ..s
            },
            GCommand::MinInnerSize { width, height } => GShellState {
                min_inner_size: Some((width, height)),
                ..s
            },
            GCommand::MaxInnerSize { width, height } => GShellState {
                max_inner_size: Some((width, height)),
                ..s
            },
            GCommand::OuterPosition { top, left } => GShellState {
                outer_position: Some((top, left)),
                ..s
            },
            GCommand::AlwaysOnTop { always } => GShellState { always_on_top: always, ..s },
            GCommand::Decorations { decorations } => GShellState { decorations, ..s },
            GCommand::Fullscreen { fullscreen } => GShellState { fullscreen, ..s },
            GCommand::Maximized { maximized } => GShellState { maximized, ..s },
            GCommand::Minimized { minimized } => GShellState { minimized, ..s },
        }
    }
}

/// The actions one command asks of the event loop. A terminal shell asks
/// nothing.
pub open spec fn actions_of(s: GShellState, c: GCommand) -> Seq<GShellAction> {
    if s.terminal {
        Seq::empty()
    } else {
        match c {
            GCommand::Focus => seq![GShellAction::FocusWindow],
            GCommand::Close => seq![GShellAction::EmitEnd],
            GCommand::Eval { js } => seq![GShellAction::EvalScript(js)],
            GCommand::Title { title } => seq![GShellAction::SetTitle(title)],
            GCommand::WindowIcon { path } => seq![GShellAction::SetWindowIcon(path)],
            GCommand::Resizable { resizable } => seq![GShellAction::SetResizable(resizable)],
            GCommand::InnerSize { width, height } => seq![
                GShellAction::SetInnerSize(width, height),
            ],
            GCommand::MinInnerSize { width, height } => seq![
                GShellAction::SetMinInnerSize(width, height),
            ],
            GCommand::MaxInnerSize { width, height } => seq![
                GShellAction::SetMaxInnerSize(width, height),
            ],
            GCommand::OuterPosition { top, left } => seq![
                GShellAction::SetOuterPosition(top, left),
            ],
            GCommand::AlwaysOnTop { always } => seq![GShellAction::SetAlwaysOnTop(always)],
            GCommand::Decorations { decorations } => seq![
                GShellAction::SetDecorations(decorations),
            ],
            GCommand::Fullscreen { fullscreen } => seq![GShellAction::SetFullscreen(fullscreen)],
            GCommand::Maximized { maximized } => seq![GShellAction::SetMaximized(maximized)],
            GCommand::Minimized { minimized } => seq![GShellAction::SetMinimized(minimized)],
        }
    }
}

/// Apply one command to the shell state and hand back the actions the event
/// loop must perform, in order.
pub fn apply(state: &mut ShellState, cmd: &Command) -> (acts: Vec<ShellAction>)
    ensures
        final(state)@ == state_after(old(state)@, cmd@),
        actions_view(acts@) == actions_of(old(state)@, cmd@),
{
    let mut acts: Vec<ShellAction> = Vec::new();
    if state.terminal {
        assert(actions_view(acts@) =~= Seq::<GShellAction>::empty());
        return acts;
    }
    match cmd {
        Command::Focus => {
            acts.push(ShellAction::FocusWindow);
        },
        Command::Close => {
            state.terminal = true;
            acts.push(ShellAction::EmitEnd);
        },
        Command::Eval { js } => {
            acts.push(ShellAction::EvalScript(copy_bytes(js)));
        },
        Command::Title { title } => {
            state.title = copy_bytes(title);
            acts.push(ShellAction::SetTitle(copy_bytes(title)));
        },
        Command::WindowIcon { path } => {
            state.window_icon = Some(copy_bytes(path));
            acts.push(ShellAction::SetWindowIcon(copy_bytes(path)));
        },
        Command::Resizable { resizable } => {
            state.resizable = *resizable;
            acts.push(ShellAction::SetResizable(*resizable));
        },
        Command::InnerSize { width, height } => {
            state.inner_size = Some((*width, *height));
            acts.push(ShellAction::SetInnerSize(*width, *height));
        },
        Command::MinInnerSize { width, height } => {
            state.min_inner_size = Some((*width, *height));
            acts.push(ShellAction::SetMinInnerSize(*width, *height));
        },
        Command::MaxInnerSize { width, height } => {
            state.max_inner_size = Some((*width, *height));
            acts.push(ShellAction::SetMaxInnerSize(*width, *height));
        },
        Command::OuterPosition { top, left } => {
            state.outer_position = Some((*top, *left));
            acts.push(ShellAction::SetOuterPosition(*top, *left));
        },
        Command::AlwaysOnTop { always } => {
            state.always_on_top = *always;
            acts.push(ShellAction::SetAlwaysOnTop(*always));
        },
        Command::Decorations { decorations } => {
            state.decorations = *decorations;
            acts.push(ShellAction::SetDecorations(*decorations));
        },
        Command::Fullscreen { fullscreen } => {
            state.fullscreen = *fullscreen;
            acts.push(ShellAction::SetFullscreen(*fullscreen));
        },
        Command::Maximized { maximized } => {
            state.maximized = *maximized;
            acts.push(ShellAction::SetMaximized(*maximized));
        },
        Command::Minimized { minimized } => {
            state.minimized = *minimized;
            acts.push(ShellAction::SetMinimized(*minimized));
        },
    }
    proof {
        assert(actions_view(acts@) =~= actions_of(old(state)@, cmd@));
    }
    acts
}

/// What one inbound line does to the interpreter's state: only a command
/// frame changes anything.
pub open spec fn step_state(s: GShellState, line: Seq<u8>) -> GShellState {
    match spec_route(line) {
        GRouted::Cmd(c) => state_after(s, c),
        _ => s,
    }
}

/// What one inbound line produces.
#[derive(Debug, Clone, PartialEq, Eq)]
pub enum StepResult {
    /// A command was applied; these actions are owed to the window.
    Commanded(Vec<ShellAction>),
    /// A path answer; the caller hands it to the resolution rendezvous.
    AnswerReady(PathAnswer),
    /// Not a protocol line; nothing happened.
    LineIgnored,
    /// A prefixed frame that decodes to nothing known; log it and go on.
    FrameRejected,
}

pub enum GStepResult {
    Commanded(Seq<GShellAction>),
    AnswerReady(GPathAnswer),
    LineIgnored,
    FrameRejected,
}

impl View for StepResult {
    type V = GStepResult;

    open spec fn view(&self) -> GStepResult {
        match self {
            StepResult::Commanded(acts) => GStepResult::Commanded(actions_view(acts@)),
            StepResult::AnswerReady(a) => GStepResult::AnswerReady(a@),
            StepResult::LineIgnored => GStepResult::LineIgnored,
            StepResult::FrameRejected => GStepResult::FrameRejected,
        }
    }
}

pub open spec fn step_out(s: GShellState, line: Seq<u8>) -> GStepResult {
    match spec_route(line) {
        GRouted::Cmd(c) => GStepResult::Commanded(actions_of(s, c)),
        GRouted::Answer(a) => GStepResult::AnswerReady(a),
        GRouted::Ignored => GStepResult::LineIgnored,
        GRouted::Malformed => GStepResult::FrameRejected,
    }
}

/// Route one line and, when it carries a command, apply it.
pub fn step_line(state: &mut ShellState, line: &Vec<u8>) -> (r: StepResult)
    ensures
        final(state)@ == step_state(old(state)@, line@),
        r@ == step_out(old(state)@, line@),
{
    match route_line(line) {
        Routed::Cmd(c) => {
            let acts = apply(state, &c);
            StepResult::Commanded(acts)
        },
        Routed::Answer(a) => StepResult::AnswerReady(a),
        Routed::Ignored => StepResult::LineIgnored,
        Routed::Malformed => StepResult::FrameRejected,
    }
}

// ---------------------------------------------------------------------------
// Laws.
// ---------------------------------------------------------------------------

/// Applying one command twice leaves the same state as applying it once.
pub proof fn lemma_apply_idempotent(s: GShellState, c: GCommand)
    ensures
        state_after(state_after(s, c), c) == state_after(s, c),
{
}

/// On a live shell, `Close` makes the state terminal and asks for exactly
/// one final `End` emission.
pub proof fn lemma_close_emits_end_once(s: GShellState)
    requires
        !s.terminal,
    ensures
        state_after(s, GCommand::Close).terminal,
        actions_of(s, GCommand::Close) =~= seq![GShellAction::EmitEnd],
{
}

/// A terminal shell is absorbed: no command changes it and none asks for any
/// further action, so nothing follows the one `End`.
pub proof fn lemma_terminal_absorbs(s: GShellState, c: GCommand)
    requires
        s.terminal,
    ensures
        state_after(s, c) == s,
        actions_of(s, c) == Seq::<GShellAction>::empty(),
{
}

/// A line that does not decode to a command, whatever it holds, changes no
/// shell state.
pub proof fn lemma_non_command_line_inert(s: GShellState, line: Seq<u8>)
    requires
        !(spec_route(line) matches GRouted::Cmd(_)),
    ensures
        step_state(s, line) == s,
{
}

// ---------------------------------------------------------------------------
// Whole runs of input.
// ---------------------------------------------------------------------------

/// The actions one line asks for.
pub open spec fn step_actions(s: GShellState, line: Seq<u8>) -> Seq<GShellAction> {
    match spec_route(line) {
        GRouted::Cmd(c) => actions_of(s, c),
        _ => Seq::empty(),
    }
}

/// The state after a whole sequence of inbound lines.
pub open spec fn run_state(s: GShellState, lines: Seq<Seq<u8>>) -> GShellState
    decreases lines.len(),
{
    if lines.len() == 0 {
        s
    } else {
        run_state(step_state(s, lines[0]), lines.drop_first())
    }
}

/// All actions a whole sequence of inbound lines asks for, in order.
pub open spec fn run_actions(s: GShellState, lines: Seq<Seq<u8>>) -> Seq<GShellAction>
    decreases lines.len(),
{
    if lines.len() == 0 {
        Seq::empty()
    } else {
        step_actions(s, lines[0]) + run_actions(step_state(s, lines[0]), lines.drop_first())
    }
}

/// How many final `End` emissions a run asks for.
pub open spec fn count_end(acts: Seq<GShellAction>) -> int
    decreases acts.len(),
{
    if acts.len() == 0 {
        0
    } else {
        (if acts[0] == GShellAction::EmitEnd {
            1int
        } else {
            0int
        }) + count_end(acts.drop_first())
    }
}

pub proof fn lemma_count_end_append(a: Seq<GShellAction>, b: Seq<GShellAction>)
    ensures
        count_end(a + b) == count_end(a) + count_end(b),
    decreases a.len(),
{
    if a.len() == 0 {
        assert(a + b =~= b);
    } else {
        let s = a + b;
        assert(s[0] == a[0]);
        assert(s.drop_first() =~= a.drop_first() + b);
        lemma_count_end_append(a.drop_first(), b);
    }
}

/// A terminal shell stays silent and unchanged over any further input.
pub proof fn lemma_terminal_run_silent(s: GShellState, lines: Seq<Seq<u8>>)
    requires
        s.terminal,
    ensures
        run_state(s, lines) == s,
        run_actions(s, lines) == Seq::<GShellAction>::empty(),
    decreases lines.len(),
{
    if lines.len() > 0 {
        assert(step_state(s, lines[0]) == s);
        assert(step_actions(s, lines[0]) =~= Seq::<GShellAction>::empty());
        lemma_terminal_run_silent(s, lines.drop_first());
        assert(step_actions(s, lines[0]) + run_actions(s, lines.drop_first())
            =~= Seq::<GShellAction>::empty());
    }
}

/// One line on a live shell asks for the final `End` exactly when it is the
/// close transition.
pub proof fn lemma_single_step_count(s: GShellState, line: Seq<u8>)
    requires
        !s.terminal,
    ensures
        count_end(step_actions(s, line)) == if step_state(s, line).terminal {
            1int
        } else {
            0int
        },
{
    assert(count_end(Seq::<GShellAction>::empty()) == 0);
    match spec_route(line) {
        GRouted::Cmd(c) => {
            let acts = actions_of(s, c);
            assert(acts.len() == 1);
            assert(acts.drop_first() =~= Seq::<GShellAction>::empty());
            match c {
                GCommand::Close => {
                    assert(acts[0] == GShellAction::EmitEnd);
                    assert(state_after(s, c).terminal);
                },
                _ => {
                    assert(acts[0] != GShellAction::EmitEnd);
                    assert(!state_after(s, c).terminal);
                },
            }
        },
        _ => {},
    }
}

/// Over any whole run that starts on a live shell, the final `End` is asked
/// for exactly once when the run closes the shell, and never otherwise.
pub proof fn lemma_end_emitted_exactly_once(s: GShellState, lines: Seq<Seq<u8>>)
    requires
        !s.terminal,
    ensures
        count_end(run_actions(s, lines)) == if run_state(s, lines).terminal {
            1int
        } else {
            0int
        },
    decreases lines.len(),
{
    if lines.len() > 0 {
        let s1 = step_state(s, lines[0]);
        lemma_count_end_append(step_actions(s, lines[0]), run_actions(s1, lines.drop_first()));
        lemma_single_step_count(s, lines[0]);
        if s1.terminal {
            lemma_terminal_run_silent(s1, lines.drop_first());
            assert(count_end(Seq::<GShellAction>::empty()) == 0);
        } else {
            lemma_end_emitted_exactly_once(s1, lines.drop_first());
        }
    }
}

} // verus!
