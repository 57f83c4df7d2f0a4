//! The line protocol codec: the two tagged message vocabularies and the
//! framing of each as a prefixed, compact JSON object.
//!
//! Events travel from the shell to the host; commands and path answers travel
//! from the host to the shell. Window dimensions and positions are integral
//! logical pixels.
use vstd::prelude::*;

use crate::json::{
    enc_obj, enc_members, enc_pair, lookup, pairs_view, sp_doc, GVal, JsonVal,
    lemma_doc_round_trip, wf_pairs, wf_val,
};

verus! {

/// The fixed literal prefix that every protocol frame carries: `_ioc:`.
pub open spec fn protocol_prefix() -> Seq<u8> {
    seq![('_' as u8), ('i' as u8), ('o' as u8), ('c' as u8), (':' as u8)]
}

/// A line is a protocol frame only when it starts with the prefix.
pub open spec fn has_prefix(line: Seq<u8>) -> bool {
    line.len() >= 5 && line.take(5) == protocol_prefix()
}

/// The prefix as bytes, for framing outbound lines.
pub fn prefix_bytes() -> (r: Vec<u8>)
    ensures
        r@ == protocol_prefix(),
{
    let mut v: Vec<u8> = Vec::new();
    v.push(('_' as u8));
    v.push(('i' as u8));
    v.push(('o' as u8));
    v.push(('c' as u8));
    v.push((':' as u8));
    assert(v@ =~= protocol_prefix());
    v
}

// ---------------------------------------------------------------------------
// Message types.
// ---------------------------------------------------------------------------

/// A shell-originated notification for the host.
#[derive(Debug, Clone, PartialEq, Eq)]
pub enum Event {
    Start,
    End,
    Message { message: Vec<u8> },
    Log { log: Vec<u8> },
    PathRequest { url: Vec<u8> },
    Error { message: Vec<u8>, source: Vec<u8>, line: u64, column: u64, stack: Vec<u8> },
}

/// An event as the contracts speak of it.
pub enum GEvent {
    Start,
    End,
    Message { message: Seq<u8> },
    Log { log: Seq<u8> },
    PathRequest { url: Seq<u8> },
    Error { message: Seq<u8>, source: Seq<u8>, line: u64, column: u64, stack: Seq<u8> },
}

impl View for Event {
    type V = GEvent;

    open spec fn view(&self) -> GEvent {
        match self {
            Event::Start => GEvent::Start,
            Event::End => GEvent::End,
            Event::Message { message } => GEvent::Message { message: message@ },
            Event::Log { log } => GEvent::Log { log: log@ },
            Event::PathRequest { url } => GEvent::PathRequest { url: url@ },
            Event::Error { message, source, line, column, stack } => GEvent::Error {
                message: message@,
                source: source@,
                line: *line,
                column: *column,
                stack: stack@,
            },
        }
    }
}

/// A host-issued instruction for the shell.
#[derive(Debug, Clone, PartialEq, Eq)]
pub enum Command {
    Focus,
    Close,
    Eval { js: Vec<u8> },
    Title { title: Vec<u8> },
    WindowIcon { path: Vec<u8> },
    Resizable { resizable: bool },
    InnerSize { width: u64, height: u64 },
    MinInnerSize { width: u64, height: u64 },
    MaxInnerSize { width: u64, height: u64 },
    OuterPosition { top: i64, left: i64 },
    AlwaysOnTop { always: bool },
    Decorations { decorations: bool },
    Fullscreen { fullscreen: bool },
    Maximized { maximized: bool },
    Minimized { minimized: bool },
}

/// A command as the contracts speak of it.
pub enum GCommand {
    Focus,
    Close,
    Eval { js: Seq<u8> },
    Title { title: Seq<u8> },
    WindowIcon { path: Seq<u8> },
    Resizable { resizable: bool },
    InnerSize { width: u64, height: u64 },
    MinInnerSize { width: u64, height: u64 },
    MaxInnerSize { width: u64, height: u64 },
    OuterPosition { top: i64, left: i64 },
    AlwaysOnTop { always: bool },
    Decorations { decorations: bool },
    Fullscreen { fullscreen: bool },
    Maximized { maximized: bool },
    Minimized { minimized: bool },
}

impl View for Command {
    type V = GCommand;

    open spec fn view(&self) -> GCommand {
        match self {
            Command::Focus => GCommand::Focus,
            Command::Close => GCommand::Close,
            Command::Eval { js } => GCommand::Eval { js: js@ },
            Command::Title { title } => GCommand::Title { title: title@ },
            Command::WindowIcon { path } => GCommand::WindowIcon { path: path@ },
            Command::Resizable { resizable } => GCommand::Resizable { resizable: *resizable },
            Command::InnerSize { width, height } => GCommand::InnerSize {
                width: *width,
                height: *height,
            },
            Command::MinInnerSize { width, height } => GCommand::MinInnerSize {
                width: *width,
                height: *height,
            },
            Command::MaxInnerSize { width, height } => GCommand::MaxInnerSize {
                width: *width,
                height: *height,
            },
            Command::OuterPosition { top, left } => GCommand::OuterPosition {
                top: *top,
                left: *left,
            },
            Command::AlwaysOnTop { always } => GCommand::AlwaysOnTop { always: *always },
            Command::Decorations { decorations } => GCommand::Decorations {
                decorations: *decorations,
            },
            Command::Fullscreen { fullscreen } => GCommand::Fullscreen { fullscreen: *fullscreen },
            Command::Maximized { maximized } => GCommand::Maximized { maximized: *maximized },
            Command::Minimized { minimized } => GCommand::Minimized { minimized: *minimized },
        }
    }
}

/// A host reply to a `PathRequest`, correlated by `url` equality alone.
#[derive(Debug, Clone, PartialEq, Eq)]
pub struct PathAnswer {
    pub url: Vec<u8>,
    pub path: Vec<u8>,
    pub mimetype: Vec<u8>,
}

/// A path answer as the contracts speak of it.
pub struct GPathAnswer {
    pub url: Seq<u8>,
    pub path: Seq<u8>,
    pub mimetype: Seq<u8>,
}

impl View for PathAnswer {
    type V = GPathAnswer;

    open spec fn view(&self) -> GPathAnswer {
        GPathAnswer { url: self.url@, path: self.path@, mimetype: self.mimetype@ }
    }
}

// ---------------------------------------------------------------------------
// Wire names.
// ---------------------------------------------------------------------------

pub open spec fn a_type() -> Seq<u8> {
    seq![('t' as u8), ('y' as u8), ('p' as u8), ('e' as u8)]
}

pub open spec fn a_start() -> Seq<u8> {
    seq![('s' as u8), ('t' as u8), ('a' as u8), ('r' as u8), ('t' as u8)]
}

pub open spec fn a_end() -> Seq<u8> {
    seq![('e' as u8), ('n' as u8), ('d' as u8)]
}

pub open spec fn a_message() -> Seq<u8> {
    seq![('m' as u8), ('e' as u8), ('s' as u8), ('s' as u8), ('a' as u8), ('g' as u8), ('e' as u8)]
}

pub open spec fn a_log() -> Seq<u8> {
    seq![('l' as u8), ('o' as u8), ('g' as u8)]
}

pub open spec fn a_path() -> Seq<u8> {
    seq![('p' as u8), ('a' as u8), ('t' as u8), ('h' as u8)]
}

pub open spec fn a_error() -> Seq<u8> {
    seq![('e' as u8), ('r' as u8), ('r' as u8), ('o' as u8), ('r' as u8)]
}

pub open spec fn a_url() -> Seq<u8> {
    seq![('u' as u8), ('r' as u8), ('l' as u8)]
}

pub open spec fn a_source() -> Seq<u8> {
    seq![('s' as u8), ('o' as u8), ('u' as u8), ('r' as u8), ('c' as u8), ('e' as u8)]
}

pub open spec fn a_line() -> Seq<u8> {
    seq![('l' as u8), ('i' as u8), ('n' as u8), ('e' as u8)]
}

pub open spec fn a_column() -> Seq<u8> {
    seq![('c' as u8), ('o' as u8), ('l' as u8), ('u' as u8), ('m' as u8), ('n' as u8)]
}

pub open spec fn a_stack() -> Seq<u8> {
    seq![('s' as u8), ('t' as u8), ('a' as u8), ('c' as u8), ('k' as u8)]
}

pub open spec fn a_mimetype() -> Seq<u8> {
    seq![('m' as u8), ('i' as u8), ('m' as u8), ('e' as u8), ('t' as u8), ('y' as u8), ('p' as u8), ('e' as u8)]
}

pub open spec fn a_focus() -> Seq<u8> {
    seq![('f' as u8), ('o' as u8), ('c' as u8), ('u' as u8), ('s' as u8)]
}

pub open spec fn a_close() -> Seq<u8> {
    seq![('c' as u8), ('l' as u8), ('o' as u8), ('s' as u8), ('e' as u8)]
}

pub open spec fn a_eval() -> Seq<u8> {
    seq![('e' as u8), ('v' as u8), ('a' as u8), ('l' as u8)]
}

pub open spec fn a_title() -> Seq<u8> {
    seq![('t' as u8), ('i' as u8), ('t' as u8), ('l' as u8), ('e' as u8)]
}

pub open spec fn a_window_icon() -> Seq<u8> {
    seq![('w' as u8), ('i' as u8), ('n' as u8), ('d' as u8), ('o' as u8), ('w' as u8), ('I' as u8), ('c' as u8), ('o' as u8), ('n' as u8)]
}

pub open spec fn a_resizable() -> Seq<u8> {
    seq![('r' as u8), ('e' as u8), ('s' as u8), ('i' as u8), ('z' as u8), ('a' as u8), ('b' as u8), ('l' as u8), ('e' as u8)]
}

pub open spec fn a_inner_size() -> Seq<u8> {
    seq![('i' as u8), ('n' as u8), ('n' as u8), ('e' as u8), ('r' as u8), ('S' as u8), ('i' as u8), ('z' as u8), ('e' as u8)]
}

pub open spec fn a_min_inner_size() -> Seq<u8> {
    seq![('m' as u8), ('i' as u8), ('n' as u8), ('I' as u8), ('n' as u8), ('n' as u8), ('e' as u8), ('r' as u8), ('S' as u8), ('i' as u8), ('z' as u8), ('e' as u8)]
}

pub open spec fn a_max_inner_size() -> Seq<u8> {
    seq![('m' as u8), ('a' as u8), ('x' as u8), ('I' as u8), ('n' as u8), ('n' as u8), ('e' as u8), ('r' as u8), ('S' as u8), ('i' as u8), ('z' as u8), ('e' as u8)]
}

pub open spec fn a_outer_position() -> Seq<u8> {
    seq![('o' as u8), ('u' as u8), ('t' as u8), ('e' as u8), ('r' as u8), ('P' as u8), ('o' as u8), ('s' as u8), ('i' as u8), ('t' as u8), ('i' as u8), ('o' as u8), ('n' as u8)]
}

pub open spec fn a_always_on_top() -> Seq<u8> {
    seq![('a' as u8), ('l' as u8), ('w' as u8), ('a' as u8), ('y' as u8), ('s' as u8), ('O' as u8), ('n' as u8), ('T' as u8), ('o' as u8), ('p' as u8)]
}

pub open spec fn a_decorations() -> Seq<u8> {
    seq![('d' as u8), ('e' as u8), ('c' as u8), ('o' as u8), ('r' as u8), ('a' as u8), ('t' as u8), ('i' as u8), ('o' as u8), ('n' as u8), ('s' as u8)]
}

pub open spec fn a_fullscreen() -> Seq<u8> {
    seq![('f' as u8), ('u' as u8), ('l' as u8), ('l' as u8), ('s' as u8), ('c' as u8), ('r' as u8), ('e' as u8), ('e' as u8), ('n' as u8)]
}

pub open spec fn a_maximized() -> Seq<u8> {
    seq![('m' as u8), ('a' as u8), ('x' as u8), ('i' as u8), ('m' as u8), ('i' as u8), ('z' as u8), ('e' as u8), ('d' as u8)]
}

pub open spec fn a_minimized() -> Seq<u8> {
    seq![('m' as u8), ('i' as u8), ('n' as u8), ('i' as u8), ('m' as u8), ('i' as u8), ('z' as u8), ('e' as u8), ('d' as u8)]
}

pub open spec fn a_js() -> Seq<u8> {
    seq![('j' as u8), ('s' as u8)]
}

pub open spec fn a_width() -> Seq<u8> {
    seq![('w' as u8), ('i' as u8), ('d' as u8), ('t' as u8), ('h' as u8)]
}

pub open spec fn a_height() -> Seq<u8> {
    seq![('h' as u8), ('e' as u8), ('i' as u8), ('g' as u8), ('h' as u8), ('t' as u8)]
}

pub open spec fn a_top() -> Seq<u8> {
    seq![('t' as u8), ('o' as u8), ('p' as u8)]
}

pub open spec fn a_left() -> Seq<u8> {
    seq![('l' as u8), ('e' as u8), ('f' as u8), ('t' as u8)]
}

pub open spec fn a_always() -> Seq<u8> {
    seq![('a' as u8), ('l' as u8), ('w' as u8), ('a' as u8), ('y' as u8), ('s' as u8)]
}

// ---------------------------------------------------------------------------
// Encoding and decoding, at the level of field lists.
// ---------------------------------------------------------------------------

/// The members of an event's payload object, in canonical order.
pub open spec fn event_fields(e: GEvent) -> Seq<(Seq<u8>, GVal)> {
    match e {
        GEvent::Start => seq![(a_type(), GVal::Str(a_start()))],
        GEvent::End => seq![(a_type(), GVal::Str(a_end()))],
        GEvent::Message { message } => seq![
            (a_type(), GVal::Str(a_message())),
            (a_message(), GVal::Str(message)),
        ],
        GEvent::Log { log } => seq![(a_type(), GVal::Str(a_log())), (a_log(), GVal::Str(log))],
        GEvent::PathRequest { url } => seq![
            (a_type(), GVal::Str(a_path())),
            (a_url(), GVal::Str(url)),
        ],
        GEvent::Error { message, source, line, column, stack } => seq![
            (a_type(), GVal::Str(a_error())),
            (a_message(), GVal::Str(message)),
            (a_source(), GVal::Str(source)),
            (a_line(), GVal::Num(line as int)),
            (a_column(), GVal::Num(column as int)),
            (a_stack(), GVal::Str(stack)),
        ],
    }
}

/// The canonical frame for an event: prefix, then its payload object.
pub open spec fn spec_encode_event(e: GEvent) -> Seq<u8> {
    protocol_prefix() + enc_obj(event_fields(e))
}

pub open spec fn str_field(ps: Seq<(Seq<u8>, GVal)>, k: Seq<u8>) -> Option<Seq<u8>> {
    match lookup(ps, k) {
        Some(GVal::Str(s)) => Some(s),
        _ => None,
    }
}

pub open spec fn bool_field(ps: Seq<(Seq<u8>, GVal)>, k: Seq<u8>) -> Option<bool> {
    match lookup(ps, k) {
        Some(GVal::Bool(b)) => Some(b),
        _ => None,
    }
}

pub open spec fn u64_field(ps: Seq<(Seq<u8>, GVal)>, k: Seq<u8>) -> Option<u64> {
    match lookup(ps, k) {
        Some(GVal::Num(n)) => if 0 <= n <= u64::MAX {
            Some(n as u64)
        } else {
            None
        },
        _ => None,
    }
}

pub open spec fn i64_field(ps: Seq<(Seq<u8>, GVal)>, k: Seq<u8>) -> Option<i64> {
    match lookup(ps, k) {
        Some(GVal::Num(n)) => if i64::MIN <= n <= i64::MAX {
            Some(n as i64)
        } else {
            None
        },
        _ => None,
    }
}

/// Which event, if any, a payload's members describe.
pub open spec fn event_of_fields(ps: Seq<(Seq<u8>, GVal)>) -> Option<GEvent> {
    match str_field(ps, a_type()) {
        Some(t) => if t == a_start() {
            Some(GEvent::Start)
        } else if t == a_end() {
            Some(GEvent::End)
        } else if t == a_message() {
            match str_field(ps, a_message()) {
                Some(m) => Some(GEvent::Message { message: m }),
                None => None,
            }
        } else if t == a_log() {
            match str_field(ps, a_log()) {
                Some(l) => Some(GEvent::Log { log: l }),
                None => None,
            }
        } else if t == a_path() {
            match str_field(ps, a_url()) {
                Some(u) => Some(GEvent::PathRequest { url: u }),
                None => None,
            }
        } else if t == a_error() {
            match (
                str_field(ps, a_message()),
                str_field(ps, a_source()),
                u64_field(ps, a_line()),
                u64_field(ps, a_column()),
                str_field(ps, a_stack()),
            ) {
                (Some(m), Some(s), Some(l), Some(c), Some(st)) => Some(
                    GEvent::Error { message: m, source: s, line: l, column: c, stack: st },
                ),
                _ => None,
            }
        } else {
            None
        },
        None => None,
    }
}

/// Which command, if any, a payload's members describe.
pub open spec fn command_of_fields(ps: Seq<(Seq<u8>, GVal)>) -> Option<GCommand> {
    match str_field(ps, a_type()) {
        Some(t) => if t == a_focus() {
            Some(GCommand::Focus)
        } else if t == a_close() {
            Some(GCommand::Close)
        } else if t == a_eval() {
            match str_field(ps, a_js()) {
                Some(js) => Some(GCommand::Eval { js }),
                None => None,
            }
        } else if t == a_title() {
            match str_field(ps, a_title()) {
                Some(title) => Some(GCommand::Title { title }),
                None => None,
            }
        } else if t == a_window_icon() {
            match str_field(ps, a_path()) {
                Some(path) => Some(GCommand::WindowIcon { path }),
                None => None,
            }
        } else if t == a_resizable() {
            match bool_field(ps, a_resizable()) {
                Some(resizable) => Some(GCommand::Resizable { resizable }),
                None => None,
            }
        } else if t == a_inner_size() {
            match (u64_field(ps, a_width()), u64_field(ps, a_height())) {
                (Some(width), Some(height)) => Some(GCommand::InnerSize { width, height }),
                _ => None,
            }
        } else if t == a_min_inner_size() {
            match (u64_field(ps, a_width()), u64_field(ps, a_height())) {
                (Some(width), Some(height)) => Some(GCommand::MinInnerSize { width, height }),
                _ => None,
            }
        } else if t == a_max_inner_size() {
            match (u64_field(ps, a_width()), u64_field(ps, a_height())) {
                (Some(width), Some(height)) => Some(GCommand::MaxInnerSize { width, height }),
                _ => None,
            }
        } else if t == a_outer_position() {
            match (i64_field(ps, a_top()), i64_field(ps, a_left())) {
                (Some(top), Some(left)) => Some(GCommand::OuterPosition { top, left }),
                _ => None,
            }
        } else if t == a_always_on_top() {
            match bool_field(ps, a_always()) {
                Some(always) => Some(GCommand::AlwaysOnTop { always }),
                None => None,
            }
        } else if t == a_decorations() {
            match bool_field(ps, a_decorations()) {
                Some(decorations) => Some(GCommand::Decorations { decorations }),
                None => None,
            }
        } else if t == a_fullscreen() {
            match bool_field(ps, a_fullscreen()) {
                Some(fullscreen) => Some(GCommand::Fullscreen { fullscreen }),
                None => None,
            }
        } else if t == a_maximized() {
            match bool_field(ps, a_maximized()) {
                Some(maximized) => Some(GCommand::Maximized { maximized }),
                None => None,
            }
        } else if t == a_minimized() {
            match bool_field(ps, a_minimized()) {
                Some(minimized) => Some(GCommand::Minimized { minimized }),
                None => None,
            }
        } else {
            None
        },
        None => None,
    }
}

/// Which path answer, if any, a payload's members describe: a plain
/// structural match on its three fields.
pub open spec fn answer_of_fields(ps: Seq<(Seq<u8>, GVal)>) -> Option<GPathAnswer> {
    match (str_field(ps, a_url()), str_field(ps, a_path()), str_field(ps, a_mimetype())) {
        (Some(url), Some(path), Some(mimetype)) => Some(GPathAnswer { url, path, mimetype }),
        _ => None,
    }
}

/// What decoding a whole line as an event yields.
pub open spec fn spec_decode_event(line: Seq<u8>) -> Option<GEvent> {
    if has_prefix(line) {
        match sp_doc(line.skip(5)) {
            Some(ps) => event_of_fields(ps),
            None => None,
        }
    } else {
        None
    }
}

// ---------------------------------------------------------------------------
// Wire names as bytes.
// ---------------------------------------------------------------------------

pub fn b_type() -> (r: Vec<u8>)
    ensures
        r@ == a_type(),
{
    let v: Vec<u8> = vec![('t' as u8), ('y' as u8), ('p' as u8), ('e' as u8)];
    proof {
        assert(v@ =~= a_type());
    }
    v
}

pub fn b_start() -> (r: Vec<u8>)
    ensures
        r@ == a_start(),
{
    let v: Vec<u8> = vec![('s' as u8), ('t' as u8), ('a' as u8), ('r' as u8), ('t' as u8)];
    proof {
        assert(v@ =~= a_start());
    }
    v
}

pub fn b_end() -> (r: Vec<u8>)
    ensures
        r@ == a_end(),
{
    let v: Vec<u8> = vec![('e' as u8), ('n' as u8), ('d' as u8)];
    proof {
        assert(v@ =~= a_end());
    }
    v
}

pub fn b_message() -> (r: Vec<u8>)
    ensures
        r@ == a_message(),
{
    let v: Vec<u8> = vec![('m' as u8), ('e' as u8), ('s' as u8), ('s' as u8), ('a' as u8), ('g' as u8), ('e' as u8)];
    proof {
        assert(v@ =~= a_message());
    }
    v
}

pub fn b_log() -> (r: Vec<u8>)
    ensures
        r@ == a_log(),
{
    let v: Vec<u8> = vec![('l' as u8), ('o' as u8), ('g' as u8)];
    proof {
        assert(v@ =~= a_log());
    }
    v
}

pub fn b_path() -> (r: Vec<u8>)
    ensures
        r@ == a_path(),
{
    let v: Vec<u8> = vec![('p' as u8), ('a' as u8), ('t' as u8), ('h' as u8)];
    proof {
        assert(v@ =~= a_path());
    }
    v
}

pub fn b_error() -> (r: Vec<u8>)
    ensures
        r@ == a_error(),
{
    let v: Vec<u8> = vec![('e' as u8), ('r' as u8), ('r' as u8), ('o' as u8), ('r' as u8)];
    proof {
        assert(v@ =~= a_error());
    }
    v
}

pub fn b_url() -> (r: Vec<u8>)
    ensures
        r@ == a_url(),
{
    let v: Vec<u8> = vec![('u' as u8), ('r' as u8), ('l' as u8)];
    proof {
        assert(v@ =~= a_url());
    }
    v
}

pub fn b_source() -> (r: Vec<u8>)
    ensures
        r@ == a_source(),
{
    let v: Vec<u8> = vec![('s' as u8), ('o' as u8), ('u' as u8), ('r' as u8), ('c' as u8), ('e' as u8)];
    proof {
        assert(v@ =~= a_source());
    }
    v
}

pub fn b_line() -> (r: Vec<u8>)
    ensures
        r@ == a_line(),
{
    let v: Vec<u8> = vec![('l' as u8), ('i' as u8), ('n' as u8), ('e' as u8)];
    proof {
        assert(v@ =~= a_line());
    }
    v
}

pub fn b_column() -> (r: Vec<u8>)
    ensures
        r@ == a_column(),
{
    let v: Vec<u8> = vec![('c' as u8), ('o' as u8), ('l' as u8), ('u' as u8), ('m' as u8), ('n' as u8)];
    proof {
        assert(v@ =~= a_column());
    }
    v
}

pub fn b_stack() -> (r: Vec<u8>)
    ensures
        r@ == a_stack(),
{
    let v: Vec<u8> = vec![('s' as u8), ('t' as u8), ('a' as u8), ('c' as u8), ('k' as u8)];
    proof {
        assert(v@ =~= a_stack());
    }
    v
}

pub fn b_mimetype() -> (r: Vec<u8>)
    ensures
        r@ == a_mimetype(),
{
    let v: Vec<u8> = vec![('m' as u8), ('i' as u8), ('m' as u8), ('e' as u8), ('t' as u8), ('y' as u8), ('p' as u8), ('e' as u8)];
    proof {
        assert(v@ =~= a_mimetype());
    }
    v
}

pub fn b_focus() -> (r: Vec<u8>)
    ensures
        r@ == a_focus(),
{
    let v: Vec<u8> = vec![('f' as u8), ('o' as u8), ('c' as u8), ('u' as u8), ('s' as u8)];
    proof {
        assert(v@ =~= a_focus());
    }
    v
}

pub fn b_close() -> (r: Vec<u8>)
    ensures
        r@ == a_close(),
{
    let v: Vec<u8> = vec![('c' as u8), ('l' as u8), ('o' as u8), ('s' as u8), ('e' as u8)];
    proof {
        assert(v@ =~= a_close());
    }
    v
}

pub fn b_eval() -> (r: Vec<u8>)
    ensures
        r@ == a_eval(),
{
    let v: Vec<u8> = vec![('e' as u8), ('v' as u8), ('a' as u8), ('l' as u8)];
    proof {
        assert(v@ =~= a_eval());
    }
    v
}

pub fn b_title() -> (r: Vec<u8>)
    ensures
        r@ == a_title(),
{
    let v: Vec<u8> = vec![('t' as u8), ('i' as u8), ('t' as u8), ('l' as u8), ('e' as u8)];
    proof {
        assert(v@ =~= a_title());
    }
    v
}

pub fn b_window_icon() -> (r: Vec<u8>)
    ensures
        r@ == a_window_icon(),
{
    let v: Vec<u8> = vec![('w' as u8), ('i' as u8), ('n' as u8), ('d' as u8), ('o' as u8), ('w' as u8), ('I' as u8), ('c' as u8), ('o' as u8), ('n' as u8)];
    proof {
        assert(v@ =~= a_window_icon());
    }
    v
}

pub fn b_resizable() -> (r: Vec<u8>)
    ensures
        r@ == a_resizable(),
{
    let v: Vec<u8> = vec![('r' as u8), ('e' as u8), ('s' as u8), ('i' as u8), ('z' as u8), ('a' as u8), ('b' as u8), ('l' as u8), ('e' as u8)];
    proof {
        assert(v@ =~= a_resizable());
    }
    v
}

pub fn b_inner_size() -> (r: Vec<u8>)
    ensures
        r@ == a_inner_size(),
{
    let v: Vec<u8> = vec![('i' as u8), ('n' as u8), ('n' as u8), ('e' as u8), ('r' as u8), ('S' as u8), ('i' as u8), ('z' as u8), ('e' as u8)];
    proof {
        assert(v@ =~= a_inner_size());
    }
    v
}

pub fn b_min_inner_size() -> (r: Vec<u8>)
    ensures
        r@ == a_min_inner_size(),
{
    let v: Vec<u8> = vec![('m' as u8), ('i' as u8), ('n' as u8), ('I' as u8), ('n' as u8), ('n' as u8), ('e' as u8), ('r' as u8), ('S' as u8), ('i' as u8), ('z' as u8), ('e' as u8)];
    proof {
        assert(v@ =~= a_min_inner_size());
    }
    v
}

pub fn b_max_inner_size() -> (r: Vec<u8>)
    ensures
        r@ == a_max_inner_size(),
{
    let v: Vec<u8> = vec![('m' as u8), ('a' as u8), ('x' as u8), ('I' as u8), ('n' as u8), ('n' as u8), ('e' as u8), ('r' as u8), ('S' as u8), ('i' as u8), ('z' as u8), ('e' as u8)];
    proof {
        assert(v@ =~= a_max_inner_size());
    }
    v
}

pub fn b_outer_position() -> (r: Vec<u8>)
    ensures
        r@ == a_outer_position(),
{
    let v: Vec<u8> = vec![('o' as u8), ('u' as u8), ('t' as u8), ('e' as u8), ('r' as u8), ('P' as u8), ('o' as u8), ('s' as u8), ('i' as u8), ('t' as u8), ('i' as u8), ('o' as u8), ('n' as u8)];
    proof {
        assert(v@ =~= a_outer_position());
    }
    v
}

pub fn b_always_on_top() -> (r: Vec<u8>)
    ensures
        r@ == a_always_on_top(),
{
    let v: Vec<u8> = vec![('a' as u8), ('l' as u8), ('w' as u8), ('a' as u8), ('y' as u8), ('s' as u8), ('O' as u8), ('n' as u8), ('T' as u8), ('o' as u8), ('p' as u8)];
    proof {
        assert(v@ =~= a_always_on_top());
    }
    v
}

pub fn b_decorations() -> (r: Vec<u8>)
    ensures
        r@ == a_decorations(),
{
    let v: Vec<u8> = vec![('d' as u8), ('e' as u8), ('c' as u8), ('o' as u8), ('r' as u8), ('a' as u8), ('t' as u8), ('i' as u8), ('o' as u8), ('n' as u8), ('s' as u8)];
    proof {
        assert(v@ =~= a_decorations());
    }
    v
}

pub fn b_fullscreen() -> (r: Vec<u8>)
    ensures
        r@ == a_fullscreen(),
{
    let v: Vec<u8> = vec![('f' as u8), ('u' as u8), ('l' as u8), ('l' as u8), ('s' as u8), ('c' as u8), ('r' as u8), ('e' as u8), ('e' as u8), ('n' as u8)];
    proof {
        assert(v@ =~= a_fullscreen());
    }
    v
}

pub fn b_maximized() -> (r: Vec<u8>)
    ensures
        r@ == a_maximized(),
{
    let v: Vec<u8> = vec![('m' as u8), ('a' as u8), ('x' as u8), ('i' as u8), ('m' as u8), ('i' as u8), ('z' as u8), ('e' as u8), ('d' as u8)];
    proof {
        assert(v@ =~= a_maximized());
    }
    v
}

pub fn b_minimized() -> (r: Vec<u8>)
    ensures
        r@ == a_minimized(),
{
    let v: Vec<u8> = vec![('m' as u8), ('i' as u8), ('n' as u8), ('i' as u8), ('m' as u8), ('i' as u8), ('z' as u8), ('e' as u8), ('d' as u8)];
    proof {
        assert(v@ =~= a_minimized());
    }
    v
}

pub fn b_js() -> (r: Vec<u8>)
    ensures
        r@ == a_js(),
{
    let v: Vec<u8> = vec![('j' as u8), ('s' as u8)];
    proof {
        assert(v@ =~= a_js());
    }
    v
}

pub fn b_width() -> (r: Vec<u8>)
    ensures
        r@ == a_width(),
{
    let v: Vec<u8> = vec![('w' as u8), ('i' as u8), ('d' as u8), ('t' as u8), ('h' as u8)];
    proof {
        assert(v@ =~= a_width());
    }
    v
}

pub fn b_height() -> (r: Vec<u8>)
    ensures
        r@ == a_height(),
{
    let v: Vec<u8> = vec![('h' as u8), ('e' as u8), ('i' as u8), ('g' as u8), ('h' as u8), ('t' as u8)];
    proof {
        assert(v@ =~= a_height());
    }
    v
}

pub fn b_top() -> (r: Vec<u8>)
    ensures
        r@ == a_top(),
{
    let v: Vec<u8> = vec![('t' as u8), ('o' as u8), ('p' as u8)];
    proof {
        assert(v@ =~= a_top());
    }
    v
}

pub fn b_left() -> (r: Vec<u8>)
    ensures
        r@ == a_left(),
{
    let v: Vec<u8> = vec![('l' as u8), ('e' as u8), ('f' as u8), ('t' as u8)];
    proof {
        assert(v@ =~= a_left());
    }
    v
}

pub fn b_always() -> (r: Vec<u8>)
    ensures
        r@ == a_always(),
{
    let v: Vec<u8> = vec![('a' as u8), ('l' as u8), ('w' as u8), ('a' as u8), ('y' as u8), ('s' as u8)];
    proof {
        assert(v@ =~= a_always());
    }
    v
}

/// Decoding the canonical frame of any event gives that event back.
pub proof fn lemma_event_round_trip(e: GEvent)
    ensures
        spec_decode_event(spec_encode_event(e)) == Some(e),
{
    let ps = event_fields(e);
    let line = spec_encode_event(e);
    assert(wf_pairs(ps)) by {
        match e {
            GEvent::Error { message, source, line, column, stack } => {
                assert(ps.len() == 6);
                assert(wf_val(ps[0].1) && wf_val(ps[1].1) && wf_val(ps[2].1) && wf_val(ps[3].1)
                    && wf_val(ps[4].1) && wf_val(ps[5].1));
            },
            _ => {
                assert(forall|i: int| 0 <= i < ps.len() ==> wf_val(#[trigger] ps[i].1));
            },
        }
    }
    lemma_doc_round_trip(ps);
    assert(line.take(5) =~= protocol_prefix());
    assert(line.skip(5) =~= enc_obj(ps));
    assert(sp_doc(line.skip(5)) == Some(ps));
    lemma_event_fields_inverse(e);
}

/// Reading an event's own field list back yields the event.
pub proof fn lemma_event_fields_inverse(e: GEvent)
    ensures
        event_of_fields(event_fields(e)) == Some(e),
{
    let ps = event_fields(e);
    match e {
        GEvent::Start => {
            assert(lookup(ps, a_type()) == Some(GVal::Str(a_start())));
        },
        GEvent::End => {
            assert(lookup(ps, a_type()) == Some(GVal::Str(a_end())));
            assert(a_end() != a_start());
        },
        GEvent::Message { message } => {
            assert(lookup(ps, a_type()) == Some(GVal::Str(a_message())));
            assert(a_message() != a_start() && a_message() != a_end());
            let p1 = ps.drop_first();
            assert(a_type() != a_message());
            assert(lookup(ps, a_message()) == lookup(p1, a_message()));
            assert(p1[0] == (a_message(), GVal::Str(message)));
            assert(lookup(p1, a_message()) == Some(GVal::Str(message)));
        },
        GEvent::Log { log } => {
            assert(lookup(ps, a_type()) == Some(GVal::Str(a_log())));
            assert(a_log() != a_start() && a_log() != a_end() && a_log() != a_message());
            let p1 = ps.drop_first();
            assert(a_type() != a_log());
            assert(lookup(ps, a_log()) == lookup(p1, a_log()));
            assert(p1[0] == (a_log(), GVal::Str(log)));
        },
        GEvent::PathRequest { url } => {
            assert(lookup(ps, a_type()) == Some(GVal::Str(a_path())));
            assert(a_path() != a_start() && a_path() != a_end() && a_path() != a_message()
                && a_path() != a_log());
            let p1 = ps.drop_first();
            assert(a_type() != a_url());
            assert(lookup(ps, a_url()) == lookup(p1, a_url()));
            assert(p1[0] == (a_url(), GVal::Str(url)));
        },
        GEvent::Error { message, source, line, column, stack } => {
            assert(lookup(ps, a_type()) == Some(GVal::Str(a_error())));
            assert(a_error()[0] != a_start()[0]);
            assert(a_error() != a_start() && a_error() != a_end() && a_error() != a_message()
                && a_error() != a_log() && a_error() != a_path());
            let p1 = ps.drop_first();
            let p2 = p1.drop_first();
            let p3 = p2.drop_first();
            let p4 = p3.drop_first();
            let p5 = p4.drop_first();
            assert(p1[0] == (a_message(), GVal::Str(message)));
            assert(p2[0] == (a_source(), GVal::Str(source)));
            assert(p3[0] == (a_line(), GVal::Num(line as int)));
            assert(p4[0] == (a_column(), GVal::Num(column as int)));
            assert(p5[0] == (a_stack(), GVal::Str(stack)));
            assert(lookup(ps, a_message()) == lookup(p1, a_message()));
            assert(lookup(ps, a_message()) == Some(GVal::Str(message)));
            assert(a_source() != a_type() && a_source() != a_message());
            assert(lookup(ps, a_source()) == lookup(p1, a_source()));
            assert(lookup(p1, a_source()) == lookup(p2, a_source()));
            assert(lookup(ps, a_source()) == Some(GVal::Str(source)));
            assert(a_line() != a_type() && a_line() != a_message() && a_line() != a_source());
            assert(lookup(ps, a_line()) == lookup(p1, a_line()));
            assert(lookup(p1, a_line()) == lookup(p2, a_line()));
            assert(lookup(p2, a_line()) == lookup(p3, a_line()));
            assert(lookup(ps, a_line()) == Some(GVal::Num(line as int)));
            assert(u64_field(ps, a_line()) == Some(line));
            assert(a_column() != a_type() && a_column() != a_message() && a_column() != a_source()
                && a_column() != a_line());
            assert(lookup(ps, a_column()) == lookup(p1, a_column()));
            assert(lookup(p1, a_column()) == lookup(p2, a_column()));
            assert(lookup(p2, a_column()) == lookup(p3, a_column()));
            assert(lookup(p3, a_column()) == lookup(p4, a_column()));
            assert(lookup(ps, a_column()) == Some(GVal::Num(column as int)));
            assert(u64_field(ps, a_column()) == Some(column));
            assert(a_stack() != a_type() && a_stack() != a_message() && a_stack() != a_source()
                && a_stack() != a_line() && a_stack() != a_column());
            assert(lookup(ps, a_stack()) == lookup(p1, a_stack()));
            assert(lookup(p1, a_stack()) == lookup(p2, a_stack()));
            assert(lookup(p2, a_stack()) == lookup(p3, a_stack()));
            assert(lookup(p3, a_stack()) == lookup(p4, a_stack()));
            assert(lookup(p4, a_stack()) == lookup(p5, a_stack()));
            assert(lookup(ps, a_stack()) == Some(GVal::Str(stack)));
        },
    }
}

// ---------------------------------------------------------------------------
// Executable decoding.
// ---------------------------------------------------------------------------

/// A member's string value, if the member exists and holds a string.
pub fn get_str(ps: &Vec<(Vec<u8>, JsonVal)>, key: &Vec<u8>) -> (r: Option<Vec<u8>>)
    ensures
        match r {
            Some(v) => str_field(pairs_view(ps@), key@) == Some(v@),
            None => str_field(pairs_view(ps@), key@) is None,
        },
{
    match crate::json::find_field(ps, key) {
        Some(i) => match &ps[i].1 {
            JsonVal::Str(sv) => Some(crate::json::copy_bytes(sv)),
            _ => None,
        },
        None => None,
    }
}

/// A member's boolean value, if the member exists and holds a boolean.
pub fn get_bool(ps: &Vec<(Vec<u8>, JsonVal)>, key: &Vec<u8>) -> (r: Option<bool>)
    ensures
        match r {
            Some(v) => bool_field(pairs_view(ps@), key@) == Some(v),
            None => bool_field(pairs_view(ps@), key@) is None,
        },
{
    match crate::json::find_field(ps, key) {
        Some(i) => match &ps[i].1 {
            JsonVal::Bool(b) => Some(*b),
            _ => None,
        },
        None => None,
    }
}

/// A member's numeric value as an unsigned count, if in range.
pub fn get_u64(ps: &Vec<(Vec<u8>, JsonVal)>, key: &Vec<u8>) -> (r: Option<u64>)
    ensures
        match r {
            Some(v) => u64_field(pairs_view(ps@), key@) == Some(v),
            None => u64_field(pairs_view(ps@), key@) is None,
        },
{
    match crate::json::find_field(ps, key) {
        Some(i) => match &ps[i].1 {
            JsonVal::Num { neg, abs } => if !*neg || *abs == 0 {
                Some(*abs)
            } else {
                None
            },
            _ => None,
        },
        None => None,
    }
}

/// A member's numeric value as a signed position, if in range.
pub fn get_i64(ps: &Vec<(Vec<u8>, JsonVal)>, key: &Vec<u8>) -> (r: Option<i64>)
    ensures
        match r {
            Some(v) => i64_field(pairs_view(ps@), key@) == Some(v),
            None => i64_field(pairs_view(ps@), key@) is None,
        },
{
    match crate::json::find_field(ps, key) {
        Some(i) => match &ps[i].1 {
            JsonVal::Num { neg, abs } => if !*neg {
                if *abs <= 0x7fff_ffff_ffff_ffffu64 {
                    Some(*abs as i64)
                } else {
                    None
                }
            } else {
                if *abs < 0x8000_0000_0000_0000u64 {
                    Some(-(*abs as i64))
                } else if *abs == 0x8000_0000_0000_0000u64 {
                    Some(i64::MIN)
                } else {
                    None
                }
            },
            _ => None,
        },
        None => None,
    }
}

pub open spec fn opt_event_view(r: Option<Event>) -> Option<GEvent> {
    match r {
        Some(e) => Some(e@),
        None => None,
    }
}

pub open spec fn opt_command_view(r: Option<Command>) -> Option<GCommand> {
    match r {
        Some(c) => Some(c@),
        None => None,
    }
}

pub open spec fn opt_answer_view(r: Option<PathAnswer>) -> Option<GPathAnswer> {
    match r {
        Some(a) => Some(a@),
        None => None,
    }
}

/// Read an event out of a parsed payload.
pub fn event_from_fields(ps: &Vec<(Vec<u8>, JsonVal)>) -> (r: Option<Event>)
    ensures
        opt_event_view(r) == event_of_fields(pairs_view(ps@)),
{
    let kt = b_type();
    match get_str(ps, &kt) {
        None => None,
        Some(t) => {
            if crate::json::bytes_eq(&t, &b_start()) {
                Some(Event::Start)
            } else if crate::json::bytes_eq(&t, &b_end()) {
                Some(Event::End)
            } else if crate::json::bytes_eq(&t, &b_message()) {
                match get_str(ps, &b_message()) {
                    Some(m) => Some(Event::Message { message: m }),
                    None => None,
                }
            } else if crate::json::bytes_eq(&t, &b_log()) {
                match get_str(ps, &b_log()) {
                    Some(l) => Some(Event::Log { log: l }),
                    None => None,
                }
            } else if crate::json::bytes_eq(&t, &b_path()) {
                match get_str(ps, &b_url()) {
                    Some(u) => Some(Event::PathRequest { url: u }),
                    None => None,
                }
            } else if crate::json::bytes_eq(&t, &b_error()) {
                let m = get_str(ps, &b_message());
                let s = get_str(ps, &b_source());
                let l = get_u64(ps, &b_line());
                let c = get_u64(ps, &b_column());
                let st = get_str(ps, &b_stack());
                match (m, s, l, c, st) {
                    (Some(message), Some(source), Some(line), Some(column), Some(stack)) => Some(
                        Event::Error { message, source, line, column, stack },
                    ),
                    _ => None,
                }
            } else {
                None
            }
        },
    }
}

/// Read a command out of a parsed payload.
pub fn command_from_fields(ps: &Vec<(Vec<u8>, JsonVal)>) -> (r: Option<Command>)
    ensures
        opt_command_view(r) == command_of_fields(pairs_view(ps@)),
{
    let kt = b_type();
    match get_str(ps, &kt) {
        None => None,
        Some(t) => {
            if crate::json::bytes_eq(&t, &b_focus()) {
                Some(Command::Focus)
            } else if crate::json::bytes_eq(&t, &b_close()) {
                Some(Command::Close)
            } else if crate::json::bytes_eq(&t, &b_eval()) {
                match get_str(ps, &b_js()) {
                    Some(js) => Some(Command::Eval { js }),
                    None => None,
                }
            } else if crate::json::bytes_eq(&t, &b_title()) {
                match get_str(ps, &b_title()) {
                    Some(title) => Some(Command::Title { title }),
                    None => None,
                }
            } else if crate::json::bytes_eq(&t, &b_window_icon()) {
                match get_str(ps, &b_path()) {
                    Some(path) => Some(Command::WindowIcon { path }),
                    None => None,
                }
            } else if crate::json::bytes_eq(&t, &b_resizable()) {
                match get_bool(ps, &b_resizable()) {
                    Some(resizable) => Some(Command::Resizable { resizable }),
                    None => None,
                }
            } else if crate::json::bytes_eq(&t, &b_inner_size()) {
                match (get_u64(ps, &b_width()), get_u64(ps, &b_height())) {
                    (Some(width), Some(height)) => Some(Command::InnerSize { width, height }),
                    _ => None,
                }
            } else if crate::json::bytes_eq(&t, &b_min_inner_size()) {
                match (get_u64(ps, &b_width()), get_u64(ps, &b_height())) {
                    (Some(width), Some(height)) => Some(Command::MinInnerSize { width, height }),
                    _ => None,
                }
            } else if crate::json::bytes_eq(&t, &b_max_inner_size()) {
                match (get_u64(ps, &b_width()), get_u64(ps, &b_height())) {
                    (Some(width), Some(height)) => Some(Command::MaxInnerSize { width, height }),
                    _ => None,
                }
            } else if crate::json::bytes_eq(&t, &b_outer_position()) {
                match (get_i64(ps, &b_top()), get_i64(ps, &b_left())) {
                    (Some(top), Some(left)) => Some(Command::OuterPosition { top, left }),
                    _ => None,
                }
            } else if crate::json::bytes_eq(&t, &b_always_on_top()) {
                match get_bool(ps, &b_always()) {
                    Some(always) => Some(Command::AlwaysOnTop { always }),
                    None => None,
                }
            } else if crate::json::bytes_eq(&t, &b_decorations()) {
                match get_bool(ps, &b_decorations()) {
                    Some(decorations) => Some(Command::Decorations { decorations }),
                    None => None,
                }
            } else if crate::json::bytes_eq(&t, &b_fullscreen()) {
                match get_bool(ps, &b_fullscreen()) {
                    Some(fullscreen) => Some(Command::Fullscreen { fullscreen }),
                    None => None,
                }
            } else if crate::json::bytes_eq(&t, &b_maximized()) {
                match get_bool(ps, &b_maximized()) {
                    Some(maximized) => Some(Command::Maximized { maximized }),
                    None => None,
                }
            } else if crate::json::bytes_eq(&t, &b_minimized()) {
                match get_bool(ps, &b_minimized()) {
                    Some(minimized) => Some(Command::Minimized { minimized }),
                    None => None,
                }
            } else {
                None
            }
        },
    }
}

/// Read a path answer out of a parsed payload.
pub fn answer_from_fields(ps: &Vec<(Vec<u8>, JsonVal)>) -> (r: Option<PathAnswer>)
    ensures
        opt_answer_view(r) == answer_of_fields(pairs_view(ps@)),
{
    let u = get_str(ps, &b_url());
    let p = get_str(ps, &b_path());
    let m = get_str(ps, &b_mimetype());
    match (u, p, m) {
        (Some(url), Some(path), Some(mimetype)) => Some(PathAnswer { url, path, mimetype }),
        _ => None,
    }
}

/// Whether `line` carries the protocol prefix.
pub fn line_has_prefix(line: &Vec<u8>) -> (r: bool)
    ensures
        r == has_prefix(line@),
{
    if line.len() < 5 {
        return false;
    }
    let ok = line[0] == ('_' as u8) && line[1] == ('i' as u8) && line[2] == ('o' as u8) && line[3]
        == ('c' as u8) && line[4] == (':' as u8);
    proof {
        assert(line@.take(5)[0] == line@[0]);
        assert(line@.take(5)[1] == line@[1]);
        assert(line@.take(5)[2] == line@[2]);
        assert(line@.take(5)[3] == line@[3]);
        assert(line@.take(5)[4] == line@[4]);
        if ok {
            assert(line@.take(5) =~= protocol_prefix());
        } else {
            assert(line@.take(5) != protocol_prefix());
        }
    }
    ok
}

/// Decode a whole line as an event frame.
pub fn decode_event_frame(line: &Vec<u8>) -> (r: Option<Event>)
    ensures
        opt_event_view(r) == spec_decode_event(line@),
{
    if !line_has_prefix(line) {
        return None;
    }
    match crate::json::parse_doc(line, 5) {
        None => None,
        Some(ps) => event_from_fields(&ps),
    }
}

// ---------------------------------------------------------------------------
// Executable encoding.
// ---------------------------------------------------------------------------

/// Encode an event as its canonical frame (prefix and payload, no newline).
#[verifier::rlimit(60)]
pub fn encode_event(e: &Event) -> (r: Vec<u8>)
    ensures
        r@ == spec_encode_event(e@),
{
    let mut out = prefix_bytes();
    out.push(('{' as u8));
    match e {
        Event::Start => {
            let k = b_type();
            let v = b_start();
            crate::json::push_pair_str(&mut out, &k, &v);
            proof {
                let ps = event_fields(e@);
                assert(enc_members(ps) == enc_pair(a_type(), GVal::Str(a_start())));
                assert(out@ =~= protocol_prefix() + seq![('{' as u8)] + enc_members(ps));
            }
        },
        Event::End => {
            let k = b_type();
            let v = b_end();
            crate::json::push_pair_str(&mut out, &k, &v);
            proof {
                let ps = event_fields(e@);
                assert(enc_members(ps) == enc_pair(a_type(), GVal::Str(a_end())));
                assert(out@ =~= protocol_prefix() + seq![('{' as u8)] + enc_members(ps));
            }
        },
        Event::Message { message } => {
            let k = b_type();
            let v = b_message();
            crate::json::push_pair_str(&mut out, &k, &v);
            out.push((',' as u8));
            let k2 = b_message();
            crate::json::push_pair_str(&mut out, &k2, message);
            proof {
                let ps = event_fields(e@);
                let p1 = ps.drop_first();
                assert(p1[0] == ps[1]);
                assert(enc_members(p1) == enc_pair(a_message(), GVal::Str(message@)));
                assert(enc_members(ps) == enc_pair(a_type(), GVal::Str(a_message())) + seq![
                    (',' as u8),
                ] + enc_members(p1));
                assert(out@ =~= protocol_prefix() + seq![('{' as u8)] + enc_members(ps));
            }
        },
        Event::Log { log } => {
            let k = b_type();
            let v = b_log();
            crate::json::push_pair_str(&mut out, &k, &v);
            out.push((',' as u8));
            let k2 = b_log();
            crate::json::push_pair_str(&mut out, &k2, log);
            proof {
                let ps = event_fields(e@);
                let p1 = ps.drop_first();
                assert(p1[0] == ps[1]);
                assert(enc_members(p1) == enc_pair(a_log(), GVal::Str(log@)));
                assert(enc_members(ps) == enc_pair(a_type(), GVal::Str(a_log())) + seq![
                    (',' as u8),
                ] + enc_members(p1));
                assert(out@ =~= protocol_prefix() + seq![('{' as u8)] + enc_members(ps));
            }
        },
        Event::PathRequest { url } => {
            let k = b_type();
            let v = b_path();
            crate::json::push_pair_str(&mut out, &k, &v);
            out.push((',' as u8));
            let k2 = b_url();
            crate::json::push_pair_str(&mut out, &k2, url);
            proof {
                let ps = event_fields(e@);
                let p1 = ps.drop_first();
                assert(p1[0] == ps[1]);
                assert(enc_members(p1) == enc_pair(a_url(), GVal::Str(url@)));
                assert(enc_members(ps) == enc_pair(a_type(), GVal::Str(a_path())) + seq![
                    (',' as u8),
                ] + enc_members(p1));
                assert(out@ =~= protocol_prefix() + seq![('{' as u8)] + enc_members(ps));
            }
        },
        Event::Error { message, source, line, column, stack } => {
            let k = b_type();
            let v = b_error();
            crate::json::push_pair_str(&mut out, &k, &v);
            out.push((',' as u8));
            let km = b_message();
            crate::json::push_pair_str(&mut out, &km, message);
            out.push((',' as u8));
            let ks = b_source();
            crate::json::push_pair_str(&mut out, &ks, source);
            out.push((',' as u8));
            let kl = b_line();
            crate::json::push_pair_u64(&mut out, &kl, *line);
            out.push((',' as u8));
            let kc = b_column();
            crate::json::push_pair_u64(&mut out, &kc, *column);
            out.push((',' as u8));
            let kst = b_stack();
            crate::json::push_pair_str(&mut out, &kst, stack);
            proof {
                let ps = event_fields(e@);
                let p1 = ps.drop_first();
                let p2 = p1.drop_first();
                let p3 = p2.drop_first();
                let p4 = p3.drop_first();
                let p5 = p4.drop_first();
                assert(p1[0] == ps[1] && p2[0] == ps[2] && p3[0] == ps[3] && p4[0] == ps[4] && p5[0]
                    == ps[5]);
                assert(enc_members(p5) == enc_pair(a_stack(), GVal::Str(stack@)));
                assert(enc_members(p4) == enc_pair(a_column(), GVal::Num(*column as int)) + seq![
                    (',' as u8),
                ] + enc_members(p5));
                assert(enc_members(p3) == enc_pair(a_line(), GVal::Num(*line as int)) + seq![
                    (',' as u8),
                ] + enc_members(p4));
                assert(enc_members(p2) == enc_pair(a_source(), GVal::Str(source@)) + seq![
                    (',' as u8),
                ] + enc_members(p3));
                assert(enc_members(p1) == enc_pair(a_message(), GVal::Str(message@)) + seq![
                    (',' as u8),
                ] + enc_members(p2));
                assert(enc_members(ps) == enc_pair(a_type(), GVal::Str(a_error())) + seq![
                    (',' as u8),
                ] + enc_members(p1));
                assert(out@ =~= protocol_prefix() + seq![('{' as u8)] + enc_members(ps));
            }
        },
    }
    out.push(('}' as u8));
    proof {
        let ps = event_fields(e@);
        assert(ps.len() >= 1);
        assert(out@ =~= protocol_prefix() + enc_obj(ps));
    }
    out
}

/// One outbound frame as the emitter writes it: the encoded event and the
/// line terminator.
pub fn frame_event(e: &Event) -> (r: Vec<u8>)
    ensures
        r@ == spec_encode_event(e@) + seq![0x0au8],
{
    let mut out = encode_event(e);
    out.push(0x0a);
    assert(out@ =~= spec_encode_event(e@) + seq![0x0au8]);
    out
}

} // verus!
