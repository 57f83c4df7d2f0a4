//! The inbound dispatcher's decision: where one line of input goes. A line
//! without the protocol prefix is dropped silently; a prefixed payload is
//! first matched structurally as a path answer, then as a command; anything
//! else is a rejected frame that the caller logs and skips.
use vstd::prelude::*;

use crate::codec::{
    answer_from_fields, answer_of_fields, command_from_fields, command_of_fields, has_prefix,
    line_has_prefix, Command, GCommand, GPathAnswer, PathAnswer,
};
use crate::json::sp_doc;

verus! {

/// Where a decoded line is delivered.
#[derive(Debug, Clone, PartialEq, Eq)]
pub enum Routed {
    /// A path answer, for whoever awaits the resolution rendezvous.
    Answer(PathAnswer),
    /// A command, for the event loop's queue.
    Cmd(Command),
    /// No protocol prefix: not ours, dropped without a word.
    Ignored,
    /// Prefixed but not decodable: logged and skipped, never fatal.
    Malformed,
}

/// A routing result as the contracts speak of it.
pub enum GRouted {
    Answer(GPathAnswer),
    Cmd(GCommand),
    Ignored,
    Malformed,
}

impl View for Routed {
    type V = GRouted;

    open spec fn view(&self) -> GRouted {
        match self {
            Routed::Answer(a) => GRouted::Answer(a@),
            Routed::Cmd(c) => GRouted::Cmd(c@),
            Routed::Ignored => GRouted::Ignored,
            Routed::Malformed => GRouted::Malformed,
        }
    }
}

/// Where a line goes: the dispatcher's whole decision.
pub open spec fn spec_route(line: Seq<u8>) -> GRouted {
    if !has_prefix(line) {
        GRouted::Ignored
    } else {
        match sp_doc(line.skip(5)) {
            None => GRouted::Malformed,
            Some(ps) => match answer_of_fields(ps) {
                Some(a) => GRouted::Answer(a),
                None => match command_of_fields(ps) {
                    Some(c) => GRouted::Cmd(c),
                    None => GRouted::Malformed,
                },
            },
        }
    }
}

/// Classify one inbound line.
pub fn route_line(line: &Vec<u8>) -> (r: Routed)
    ensures
        r@ == spec_route(line@),
{
    if !line_has_prefix(line) {
        return Routed::Ignored;
    }
    match crate::json::parse_doc(line, 5) {
        None => Routed::Malformed,
        Some(ps) => match answer_from_fields(&ps) {
            Some(a) => Routed::Answer(a),
            None => match command_from_fields(&ps) {
                Some(c) => Routed::Cmd(c),
                None => Routed::Malformed,
            },
        },
    }
}

/// A line lacking the protocol prefix never produces a command or a path
/// answer, whatever its content.
pub proof fn lemma_unprefixed_line_ignored(line: Seq<u8>)
    requires
        !has_prefix(line),
    ensures
        spec_route(line) == GRouted::Ignored,
{
}

} // verus!
