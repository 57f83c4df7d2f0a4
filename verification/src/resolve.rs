//! The resource resolver's logic: a `PathRequest` goes out, then the caller
//! blocks on the rendezvous channel, discarding every answer whose `url` is
//! not the one asked for, until a match arrives. The blocking receive itself
//! lives with the surrounding loop; the decisions here are what make it
//! correct — and what make its known hazard precise: an answer consumed by
//! the wrong waiter is discarded and lost.
use vstd::prelude::*;

use crate::codec::{frame_event, spec_encode_event, Event, GEvent, GPathAnswer, PathAnswer};
use crate::json::copy_bytes;

verus! {

pub open spec fn answers_view(answers: Seq<PathAnswer>) -> Seq<GPathAnswer> {
    answers.map_values(|a: PathAnswer| a@)
}

/// The first answer in arrival order whose `url` equals the requested one.
pub open spec fn sp_first_match(answers: Seq<GPathAnswer>, url: Seq<u8>) -> Option<GPathAnswer>
    decreases answers.len(),
{
    if answers.len() == 0 {
        None
    } else if answers[0].url == url {
        Some(answers[0])
    } else {
        sp_first_match(answers.drop_first(), url)
    }
}

/// The waiter's one decision per received answer: keep it only when its
/// `url` equals the requested one.
pub fn answer_matches(answer: &PathAnswer, url: &Vec<u8>) -> (r: bool)
    ensures
        r == (answer@.url == url@),
{
    crate::json::bytes_eq(&answer.url, url)
}

/// The frame that opens a resolution: `PathRequest{url}`, ready to write.
pub fn path_request_frame(url: &Vec<u8>) -> (r: Vec<u8>)
    ensures
        r@ == spec_encode_event(GEvent::PathRequest { url: url@ }) + seq![0x0au8],
{
    let e = Event::PathRequest { url: copy_bytes(url) };
    frame_event(&e)
}

/// Scan a sequence of received answers as the blocked `resolve` call would:
/// the position of the first whose `url` matches. Every earlier answer is
/// inspected and discarded — if it belonged to another waiter, it is lost to
/// that waiter. `None` is the case in which the call would block forever.
pub fn scan_for_answer(answers: &Vec<PathAnswer>, url: &Vec<u8>) -> (r: Option<usize>)
    ensures
        match r {
            Some(i) => i < answers@.len() && answers@[i as int]@.url == url@ && (forall|k: int|
                0 <= k < i ==> answers@[k]@.url != url@) && sp_first_match(
                answers_view(answers@),
                url@,
            ) == Some(answers@[i as int]@),
            None => (forall|k: int|
                0 <= k < answers@.len() ==> answers@[k]@.url != url@) && sp_first_match(
                answers_view(answers@),
                url@,
            ) is None,
        },
{
    let ghost all = answers_view(answers@);
    proof {
        assert(all.skip(0) =~= all);
    }
    let mut i: usize = 0;
    while i < answers.len()
        invariant
            i <= answers@.len(),
            all == answers_view(answers@),
            sp_first_match(all.skip(i as int), url@) == sp_first_match(all, url@),
            forall|k: int| 0 <= k < i ==> answers@[k]@.url != url@,
        decreases answers@.len() - i,
    {
        let ghost suf = all.skip(i as int);
        assert(all[i as int] == answers@[i as int]@);
        assert(suf[0] == all[i as int]);
        if answer_matches(&answers[i], url) {
            assert(sp_first_match(suf, url@) == Some(answers@[i as int]@));
            return Some(i);
        }
        proof {
            assert(sp_first_match(suf, url@) == sp_first_match(suf.drop_first(), url@));
            assert(suf.drop_first() =~= all.skip(i + 1));
        }
        i = i + 1;
    }
    assert(all.skip(answers@.len() as int).len() == 0);
    None
}

/// The rendezvous conduit that carries answers from the dispatcher to a
/// blocked resolver.
#[verifier::external_type_specification]
#[verifier::external_body]
#[verifier::reject_recursive_types(T)]
pub struct ExReceiver<T>(crossbeam_channel::Receiver<T>);

/// Relies on crossbeam_channel::Receiver::recv: blocks until a message is
/// received or every sender is gone; `Ok` holds a message that was sent on
/// the channel, `Err` reports disconnection. Nothing is promised of which
/// message arrives.
#[verifier::external_body]
fn recv_path_answer(rx: &crossbeam_channel::Receiver<PathAnswer>) -> (r: Option<PathAnswer>) {
    match rx.recv() {
        Ok(a) => Some(a),
        Err(_) => None,
    }
}

/// One step of a blocked `resolve` call.
#[derive(Debug, Clone, PartialEq, Eq)]
pub enum AwaitStep {
    /// The awaited answer: its `url` equals the requested one.
    Matched(PathAnswer),
    /// An answer for some other url, consumed and lost to its real waiter.
    Discarded(PathAnswer),
    /// The dispatcher is gone; no answer can ever arrive.
    ChannelClosed,
}

/// Wait once on the rendezvous and decide: keep the answer when its `url`
/// matches, discard it otherwise. The caller repeats this until a match —
/// and may wait forever, since no timeout exists in this design.
pub fn await_answer_step(rx: &crossbeam_channel::Receiver<PathAnswer>, url: &Vec<u8>) -> (r:
    AwaitStep)
    ensures
        match r {
            AwaitStep::Matched(a) => a@.url == url@,
            AwaitStep::Discarded(a) => a@.url != url@,
            AwaitStep::ChannelClosed => true,
        },
{
    match recv_path_answer(rx) {
        Some(a) => if answer_matches(&a, url) {
            AwaitStep::Matched(a)
        } else {
            AwaitStep::Discarded(a)
        },
        None => AwaitStep::ChannelClosed,
    }
}

/// What `resolve` returns once its scan has found a match: the answer's
/// path and declared content type.
pub fn resolved_pair(answers: &Vec<PathAnswer>, url: &Vec<u8>) -> (r: Option<(Vec<u8>, Vec<u8>)>)
    ensures
        match r {
            Some((path, mimetype)) => (match sp_first_match(answers_view(answers@), url@) {
                Some(a) => a.path == path@ && a.mimetype == mimetype@,
                None => false,
            }),
            None => sp_first_match(answers_view(answers@), url@) is None,
        },
{
    match scan_for_answer(answers, url) {
        Some(i) => {
            let path = copy_bytes(&answers[i].path);
            let mimetype = copy_bytes(&answers[i].mimetype);
            Some((path, mimetype))
        },
        None => None,
    }
}

} // verus!
