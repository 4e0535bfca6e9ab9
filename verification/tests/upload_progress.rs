use ciruela::upload_text::{decimal_text, fmt_iter, upload_ok_text};
use ciruela::bookkeeping::Bookkeeping;
use ciruela::key_set::{KeyMap, KeySet};
use ciruela::machine_id::MachineId;
use ciruela::upload_progress::{
    check, classify_response, early_hosts_needed, is_conflict_reason, upload_step, ErrorKind,
    Progress, ResponseKind, UploadStep,
};

fn mid(n: u8) -> MachineId {
    MachineId::new(&[n; 32])
}

fn progress() -> Progress {
    Progress {
        accepted_all_done: true,
        discovered_all_done: true,
        discovered: 4,
        done_ids: 4,
        rejected_ips: 0,
        aborted_ids: 0,
        aborted_ips: 0,
    }
}

#[test]
fn error_kind_messages() {
    assert_eq!(ErrorKind::DeadlineReached.message(), "deadline reached");
    assert_eq!(ErrorKind::Rejected.message(), "some hosts rejected the download");
}

#[test]
fn conflict_reasons() {
    assert!(is_conflict_reason(Some("already_exists")));
    assert!(is_conflict_reason(Some("already_uploading_different_version")));
    assert!(!is_conflict_reason(Some("no_config")));
    assert!(!is_conflict_reason(None));
}

#[test]
fn classify_answers() {
    assert_eq!(classify_response(true, None, false), ResponseKind::Accepted);
    assert_eq!(classify_response(false, Some("already_exists"), true), ResponseKind::AcceptedAsDone);
    assert_eq!(classify_response(false, Some("already_exists"), false), ResponseKind::Rejected);
    assert_eq!(classify_response(false, Some("no_config"), true), ResponseKind::NoConfig);
    assert_eq!(classify_response(false, None, true), ResponseKind::Rejected);
}

#[test]
fn hosts_needed_for_early_success() {
    // ceil(4 * 0.75) = 3, at least 3, at most 4 discovered
    assert_eq!(early_hosts_needed(4, 3, 3), 3);
    // fewer discovered than early hosts
    assert_eq!(early_hosts_needed(2, 3, 2), 2);
    // the fraction wins when it is larger
    assert_eq!(early_hosts_needed(100, 3, 75), 75);
}

#[test]
fn check_waits_for_accepting_hosts() {
    let mut p = progress();
    p.accepted_all_done = false;
    assert_eq!(check(&p, 3, 3, true), None);
    assert_eq!(check(&p, 3, 3, false), None);
}

#[test]
fn check_success_and_rejection() {
    let p = progress();
    assert_eq!(check(&p, 3, 3, false), Some(Ok(())));
    let mut r = progress();
    r.rejected_ips = 1;
    assert_eq!(check(&r, 3, 3, false), Some(Err(ErrorKind::Rejected)));
    let mut a = progress();
    a.aborted_ips = 1;
    assert_eq!(check(&a, 3, 3, false), Some(Err(ErrorKind::Rejected)));
}

#[test]
fn check_early_timeout_counts_done_hosts() {
    let mut p = progress();
    p.discovered_all_done = false;
    p.discovered = 10;
    p.done_ids = 7;
    assert_eq!(check(&p, 3, 8, false), None);
    assert_eq!(check(&p, 3, 8, true), None);
    p.done_ids = 8;
    assert_eq!(check(&p, 3, 8, true), Some(Ok(())));
    p.aborted_ids = 1;
    assert_eq!(check(&p, 3, 8, true), Some(Err(ErrorKind::Rejected)));
}

#[test]
fn upload_steps() {
    assert_eq!(upload_step(0, 1, false, Some(Ok(()))), UploadStep::Finish(Ok(())));
    assert_eq!(upload_step(1, 1, false, Some(Ok(()))), UploadStep::Wait);
    assert_eq!(upload_step(0, 0, false, Some(Ok(()))), UploadStep::Wait);
    assert_eq!(
        upload_step(2, 1, true, None),
        UploadStep::Finish(Err(ErrorKind::DeadlineReached))
    );
    assert_eq!(
        upload_step(2, 1, true, Some(Err(ErrorKind::Rejected))),
        UploadStep::Finish(Err(ErrorKind::Rejected))
    );
    assert_eq!(upload_step(0, 3, false, None), UploadStep::Wait);
}

#[test]
fn key_set_basics() {
    let mut s: KeySet<String> = KeySet::new();
    assert!(s.is_empty());
    assert!(s.insert(String::from("a")));
    assert!(!s.insert(String::from("a")));
    assert!(s.insert(String::from("b")));
    assert_eq!(s.len(), 2);
    assert!(s.contains(&String::from("b")));
    assert!(!s.contains(&String::from("c")));
    let mut t: KeySet<String> = KeySet::new();
    t.insert(String::from("b"));
    assert!(s.is_superset(&t));
    assert!(!t.is_superset(&s));
    assert_eq!(s.items(), &vec![String::from("a"), String::from("b")]);
}

#[test]
fn key_map_replaces_values() {
    let mut m: KeyMap<String> = KeyMap::new();
    assert!(m.insert(String::from("k"), String::from("one")));
    assert!(!m.insert(String::from("k"), String::from("two")));
    assert_eq!(m.len(), 1);
    assert!(m.contains_key(&String::from("k")));
    assert_eq!(m.items(), &vec![(String::from("k"), String::from("two"))]);
}

#[test]
fn key_set_of_machine_ids() {
    let mut s: KeySet<MachineId> = KeySet::new();
    assert!(s.insert(mid(1)));
    assert!(!s.insert(mid(1)));
    assert!(s.insert(mid(2)));
    assert_eq!(s.len(), 2);
}

#[test]
fn bookkeeping_counts_each_address_once() {
    let mut b = Bookkeeping::new(false);
    assert_eq!(b.add_response(String::from("10.0.0.1:24783"), true, None, vec![]), ResponseKind::Accepted);
    assert_eq!(b.total_responses(), 1);
    b.add_response(String::from("10.0.0.1:24783"), true, None, vec![]);
    assert_eq!(b.total_responses(), 1);
    let k = b.add_response(
        String::from("10.0.0.2:24783"),
        false,
        Some(String::from("signature_mismatch")),
        vec![],
    );
    assert_eq!(k, ResponseKind::Rejected);
    assert_eq!(b.total_responses(), 2);
    assert!(b.is_rejected(&String::from("10.0.0.2:24783")));
    assert!(!b.is_rejected(&String::from("10.0.0.1:24783")));
    assert_eq!(b.rejected_ips().items()[0].1, "signature_mismatch");
}

#[test]
fn bookkeeping_unknown_reason_and_no_config() {
    let mut b = Bookkeeping::new(false);
    b.add_response(String::from("h1"), false, None, vec![]);
    assert_eq!(b.rejected_ips().items()[0].1, "unknown");
    assert_eq!(
        b.add_response(String::from("h2"), false, Some(String::from("no_config")), vec![]),
        ResponseKind::NoConfig
    );
    assert!(b.is_rejected(&String::from("h2")));
    // a refusal for no configuration is not counted as an answer
    assert_eq!(b.responses(), 1);
}

#[test]
fn bookkeeping_weak_conflict_counts_as_done() {
    let mut b = Bookkeeping::new(true);
    let k = b.add_response(
        String::from("h1"),
        false,
        Some(String::from("already_exists")),
        vec![(mid(1), String::from("one"))],
    );
    assert_eq!(k, ResponseKind::AcceptedAsDone);
    let p = b.progress();
    assert!(p.accepted_all_done);
    assert_eq!(p.discovered, 1);
    assert_eq!(p.done_ids, 0);
    assert!(!p.discovered_all_done);
}

#[test]
fn bookkeeping_upload_completes() {
    let mut b = Bookkeeping::new(false);
    b.add_response(
        String::from("a:1"),
        true,
        None,
        vec![(mid(1), String::from("one")), (mid(2), String::from("two"))],
    );
    assert_eq!(b.check(3, 2, false), None);
    b.received_image(String::from("a:1"), false, mid(1), String::from("one"));
    assert_eq!(b.check(3, 2, false), None);
    b.received_image(String::from("b:1"), true, mid(2), String::from("two"));
    assert_eq!(b.check(3, 2, false), Some(Ok(())));
    assert_eq!(b.done_hostnames().len(), 2);
    assert_eq!(b.done_ids().len(), 2);
    assert_eq!(b.discovered_ids().len(), 2);
}

#[test]
fn bookkeeping_aborted_download_fails() {
    let mut b = Bookkeeping::new(false);
    b.add_response(String::from("a:1"), true, None, vec![(mid(1), String::from("one"))]);
    b.received_image(String::from("a:1"), false, mid(1), String::from("one"));
    b.aborted_image(String::from("a:1"), false, mid(3), String::from("three"), String::from("disk full"));
    assert_eq!(b.check(3, 2, false), Some(Err(ErrorKind::Rejected)));
    assert_eq!(b.aborted_hostnames().items()[0].1, "disk full");
    assert_eq!(b.aborted_ids().len(), 1);
}

#[test]
fn numbers_and_lists_as_text() {
    assert_eq!(decimal_text(0), "0");
    assert_eq!(decimal_text(7), "7");
    assert_eq!(decimal_text(1234567890), "1234567890");
    assert_eq!(decimal_text(u64::MAX), u64::MAX.to_string());
    assert_eq!(fmt_iter(&vec![]), "");
    assert_eq!(fmt_iter(&vec![String::from("a")]), "a");
    assert_eq!(fmt_iter(&vec![String::from("a"), String::from("b"), String::from("c")]), "a, b, c");
}

#[test]
fn downloaded_report() {
    let mut b = Bookkeeping::new(false);
    b.add_response(String::from("10.0.0.1:1"), true, None, vec![(mid(1), String::from("one")), (mid(2), String::from("two"))]);
    b.received_image(String::from("10.0.0.1:1"), false, mid(1), String::from("one"));
    assert_eq!(b.fmt_downloaded(), "fetched from one (out of 2 hosts)");
    b.add_response(String::from("10.0.0.3:1"), false, Some(String::from("bad")), vec![]);
    b.aborted_image(String::from("10.0.0.2:1"), false, mid(2), String::from("two"), String::from("disk full"));
    assert_eq!(
        b.fmt_downloaded(),
        "fetched from one (out of 2 hosts), rejected by10.0.0.3:1: bad, aborted bytwo: disk full"
    );
    let mut many = Bookkeeping::new(false);
    for i in 1..5u8 {
        many.received_image(format!("10.0.0.{}:1", i), false, mid(i), format!("h{}", i));
    }
    assert_eq!(many.fmt_downloaded(), "fetched from 4 hosts");
}

#[test]
fn upload_ok_report() {
    let one = vec![String::from("cluster.example")];
    assert_eq!(upload_ok_text(&one, "fetched from a", 0, 5_000_000), "Upload to cluster.example: fetched from a in 0.005s");
    assert_eq!(upload_ok_text(&one, "x", 0, 123_456_789), "Upload to cluster.example: x in 0.123s");
    let two = vec![String::from("a"), String::from("b")];
    assert_eq!(upload_ok_text(&two, "x", 3, 950_000_000), "Upload to 2 hosts: x in 3.9s");
    assert_eq!(upload_ok_text(&two, "x", 42, 1), "Upload to 2 hosts: x in 42s");
}
