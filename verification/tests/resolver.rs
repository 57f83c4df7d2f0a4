use nwv_bridge::codec::PathAnswer;
use nwv_bridge::resolve::{
    answer_matches, await_answer_step, path_request_frame, resolved_pair, scan_for_answer,
    AwaitStep,
};

fn bv(s: &str) -> Vec<u8> {
    s.as_bytes().to_vec()
}

fn answer(url: &str, path: &str, mimetype: &str) -> PathAnswer {
    PathAnswer { url: bv(url), path: bv(path), mimetype: bv(mimetype) }
}

#[test]
fn request_frame_is_the_path_event() {
    let frame = path_request_frame(&bv("nwv://index.html"));
    assert_eq!(frame, b"_ioc:{\"type\":\"path\",\"url\":\"nwv://index.html\"}\n".to_vec());
}

// The answer for the requested url, arriving after the request, resolves to
// its path and declared content type.
#[test]
fn matching_answer_resolves() {
    let answers = vec![answer("nwv://index.html", "./www/index.html", "text/html")];
    let r = resolved_pair(&answers, &bv("nwv://index.html"));
    assert_eq!(r, Some((bv("./www/index.html"), bv("text/html"))));
}

#[test]
fn first_matching_answer_wins() {
    let answers = vec![
        answer("nwv://other.css", "./www/other.css", "text/css"),
        answer("nwv://index.html", "./www/first.html", "text/html"),
        answer("nwv://index.html", "./www/second.html", "text/html"),
    ];
    let r = resolved_pair(&answers, &bv("nwv://index.html"));
    assert_eq!(r, Some((bv("./www/first.html"), bv("text/html"))));
    assert_eq!(scan_for_answer(&answers, &bv("nwv://index.html")), Some(1));
}

// With no matching answer the scan never completes: the blocked call would
// wait forever.
#[test]
fn no_answer_means_no_return() {
    let answers = vec![answer("nwv://other.css", "./www/other.css", "text/css")];
    assert_eq!(scan_for_answer(&answers, &bv("nwv://index.html")), None);
    assert_eq!(resolved_pair(&answers, &bv("nwv://index.html")), None);
}

#[test]
fn waiter_decision_is_url_equality() {
    let a = answer("nwv://a", "./a", "text/plain");
    assert!(answer_matches(&a, &bv("nwv://a")));
    assert!(!answer_matches(&a, &bv("nwv://b")));
}

#[test]
fn rendezvous_step_keeps_the_matching_answer() {
    let (tx, rx) = crossbeam_channel::bounded::<PathAnswer>(1);
    tx.send(answer("nwv://a", "./a", "text/plain")).unwrap();
    assert_eq!(
        await_answer_step(&rx, &bv("nwv://a")),
        AwaitStep::Matched(answer("nwv://a", "./a", "text/plain"))
    );
}

#[test]
fn rendezvous_step_discards_a_foreign_answer() {
    let (tx, rx) = crossbeam_channel::bounded::<PathAnswer>(1);
    tx.send(answer("nwv://b", "./b", "text/css")).unwrap();
    assert_eq!(
        await_answer_step(&rx, &bv("nwv://a")),
        AwaitStep::Discarded(answer("nwv://b", "./b", "text/css"))
    );
}

#[test]
fn rendezvous_step_reports_a_closed_channel() {
    let (tx, rx) = crossbeam_channel::bounded::<PathAnswer>(1);
    drop(tx);
    assert_eq!(await_answer_step(&rx, &bv("nwv://a")), AwaitStep::ChannelClosed);
}

// The known failure mode of the rendezvous: answers are correlated by url
// equality alone, and a waiter discards what it scans past. When the answer
// for url B arrives while the waiter for url A is blocked, A's waiter
// consumes and drops it; B's waiter is left with nothing and blocks forever.
#[test]
fn interleaved_answers_starve_the_other_waiter() {
    let arrivals = vec![
        answer("nwv://b.css", "./www/b.css", "text/css"),
        answer("nwv://a.html", "./www/a.html", "text/html"),
    ];
    // A's waiter scans past B's answer (discarding it) and takes its own.
    let scanned = scan_for_answer(&arrivals, &bv("nwv://a.html"));
    assert_eq!(scanned, Some(1));
    // Everything up to and including the match is consumed; what is left for
    // B's waiter is empty, so it can never complete.
    let left: Vec<PathAnswer> = arrivals[2..].to_vec();
    assert_eq!(scan_for_answer(&left, &bv("nwv://b.css")), None);
}
