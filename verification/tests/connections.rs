use abstract_ns::{Address, Name};

use ciruela::bookkeeping::Bookkeeping;
use ciruela::cluster_rules::{
    candidate_names, fetch_requests, index_answer_step, plan_fetch_connection,
    aborted_targets, plan_upload_connections, received_targets, upload_requests, Candidate,
    FetchStep, IndexAnswer, SetMessage, SetQueues, UploadKey,
};
use ciruela::signatures::ImageId;

fn s(v: &[&str]) -> Vec<String> {
    v.iter().map(|x| x.to_string()).collect()
}

fn addr(list: &[&str]) -> Address {
    Address::parse_list(list.iter()).unwrap()
}

fn name(n: &str) -> Name {
    n.parse().unwrap()
}

fn resolved(n: &str, a: &str) -> Candidate {
    Candidate::new(name(n), Some(&addr(&[a])), false, true)
}

fn unresolved(n: &str, may_resolve: bool) -> Candidate {
    Candidate::new(name(n), None, false, may_resolve)
}

#[test]
fn candidate_picks_one_of_its_addresses() {
    let c = Candidate::new(name("one"), Some(&addr(&["10.0.0.1:1", "10.0.0.2:1"])), false, true);
    assert!(c.resolved);
    let p = c.picked.unwrap();
    assert!(p == "10.0.0.1:1" || p == "10.0.0.2:1");
    let empty = Candidate::new(name("two"), Some(&addr(&[])), true, false);
    assert!(empty.resolved && empty.picked.is_none() && empty.resolving && !empty.may_resolve);
    let none = unresolved("three", true);
    assert!(!none.resolved && none.picked.is_none());
}

#[test]
fn upload_with_enough_connections_plans_nothing() {
    let book = Bookkeeping::new(false);
    let cands = vec![resolved("a", "10.0.0.9:1")];
    let plan = plan_upload_connections(
        2, &s(&["10.0.0.1:1", "10.0.0.2:1"]), &book, &s(&[]), &s(&[]), &s(&[]),
        &cands, &addr(&["10.0.0.3:1"]));
    assert!(plan.connect.is_empty() && plan.resolve.is_empty());
    let plan = plan_upload_connections(
        2, &s(&[]), &book, &s(&["10.0.0.1:1"]), &s(&["10.0.0.2:1"]), &s(&[]),
        &cands, &addr(&["10.0.0.3:1"]));
    assert!(plan.connect.is_empty() && plan.resolve.is_empty());
}

#[test]
fn refused_connections_do_not_count() {
    let mut book = Bookkeeping::new(false);
    book.add_response(String::from("10.0.0.1:1"), false, Some(String::from("no_config")), vec![]);
    let cands = vec![resolved("a", "10.0.0.9:1"), resolved("b", "10.0.0.1:1")];
    let plan = plan_upload_connections(
        2, &s(&[]), &book, &s(&["10.0.0.1:1"]), &s(&["10.0.0.2:1"]), &s(&[]),
        &cands, &addr(&[]));
    assert_eq!(plan.connect, s(&["10.0.0.9:1"]));
    assert!(plan.resolve.is_empty());
}

#[test]
fn upload_falls_back_to_initial_addresses() {
    let book = Bookkeeping::new(false);
    let cands = vec![
        resolved("a", "10.0.0.9:1"),
        unresolved("b", true),
        unresolved("c", false),
        Candidate::new(name("d"), None, true, true),
    ];
    let plan = plan_upload_connections(
        3, &s(&["10.0.0.1:1"]), &book, &s(&[]), &s(&[]), &s(&["10.0.0.2:1"]),
        &cands, &addr(&["10.0.0.1:1", "10.0.0.2:1", "10.0.0.3:1", "10.0.0.4:1"]));
    assert_eq!(plan.connect, s(&["10.0.0.9:1", "10.0.0.3:1", "10.0.0.4:1"]));
    assert_eq!(plan.resolve, vec![name("b")]);
}

#[test]
fn upload_connects_to_each_address_once() {
    let book = Bookkeeping::new(false);
    let cands = vec![resolved("a", "10.0.0.9:1"), resolved("b", "10.0.0.9:1")];
    let plan = plan_upload_connections(
        3, &s(&[]), &book, &s(&[]), &s(&[]), &s(&[]),
        &cands, &addr(&["10.0.0.5:1"]));
    assert_eq!(plan.connect, s(&["10.0.0.9:1", "10.0.0.5:1"]));
}

#[test]
fn upload_draws_from_many_candidates() {
    let book = Bookkeeping::new(false);
    let all = ["10.0.0.1:1", "10.0.0.2:1", "10.0.0.3:1", "10.0.0.4:1", "10.0.0.5:1"];
    let cands: Vec<Candidate> = all.iter().enumerate()
        .map(|(i, a)| resolved(&format!("h{}", i), a)).collect();
    for _ in 0..20 {
        let plan = plan_upload_connections(
            2, &s(&[]), &book, &s(&[]), &s(&[]), &s(&[]), &cands, &addr(&[]));
        assert_eq!(plan.connect.len(), 2);
        assert_ne!(plan.connect[0], plan.connect[1]);
        assert!(plan.connect.iter().all(|c| all.contains(&c.as_str())));
        assert!(plan.resolve.is_empty());
    }
}

#[test]
fn fetch_plans() {
    let initial = addr(&["10.0.0.1:1"]);
    let cands = vec![resolved("a", "10.0.0.9:1"), unresolved("b", true)];
    let plan = plan_fetch_connection(true, &s(&[]), &s(&[]), &s(&[]), &cands, &initial);
    assert!(plan.connect.is_empty() && plan.resolve.is_empty());
    // a fresh resolved candidate leaves nothing to do here
    let plan = plan_fetch_connection(false, &s(&[]), &s(&[]), &s(&[]), &cands, &initial);
    assert!(plan.connect.is_empty() && plan.resolve.is_empty());
    // with it held back, a name is resolved and an initial address is tried
    let plan = plan_fetch_connection(
        false, &s(&[]), &s(&[]), &s(&["10.0.0.9:1"]), &cands, &initial);
    assert_eq!(plan.connect, s(&["10.0.0.1:1"]));
    assert_eq!(plan.resolve, vec![name("b")]);
    let plan = plan_fetch_connection(
        false, &s(&["10.0.0.1:1"]), &s(&["10.0.0.9:1"]), &s(&[]), &cands, &initial);
    assert!(plan.connect.is_empty());
    assert_eq!(plan.resolve, vec![name("b")]);
}

#[test]
fn wakeup_requests() {
    let mut book = Bookkeeping::new(false);
    book.add_response(String::from("10.0.0.3:1"), false, Some(String::from("x")), vec![]);
    let active = s(&["10.0.0.1:1", "10.0.0.2:1", "10.0.0.3:1"]);
    assert_eq!(upload_requests(2, &s(&["10.0.0.1:1"]), &book, &active), s(&["10.0.0.2:1"]));
    assert!(upload_requests(1, &s(&["10.0.0.1:1"]), &book, &active).is_empty());
    assert_eq!(fetch_requests(false, &active, &s(&["10.0.0.2:1"])), s(&["10.0.0.1:1", "10.0.0.3:1"]));
    assert!(fetch_requests(true, &active, &s(&[])).is_empty());
}

fn mid(n: u8) -> ciruela::machine_id::MachineId {
    ciruela::machine_id::MachineId::new(&[n; 32])
}

#[test]
fn answer_hosts_become_candidates() {
    let hosts = vec![
        (mid(1), String::from("alpha")),
        (mid(2), String::from("-bad")),
        (mid(3), String::from("beta.local")),
    ];
    let names = candidate_names(&hosts);
    assert_eq!(names, vec![name("alpha"), name("beta.local")]);
}

#[test]
fn index_answers() {
    match index_answer_step(Some(String::from("10.0.0.1:1")), IndexAnswer::Data(vec![1, 2])) {
        FetchStep::Done(d) => assert_eq!(d, vec![1, 2]),
        _ => panic!("data ends the download"),
    }
    let hosts = vec![(mid(1), String::from("gamma")), (mid(2), String::from("a..b"))];
    match index_answer_step(Some(String::from("10.0.0.1:1")), IndexAnswer::Missing(hosts)) {
        FetchStep::Retry { failed, candidates } => {
            assert_eq!(failed, Some(String::from("10.0.0.1:1")));
            assert_eq!(candidates, vec![name("gamma")]);
        }
        _ => panic!("a missing index is retried"),
    }
    match index_answer_step(None, IndexAnswer::Failed) {
        FetchStep::Retry { failed, candidates } => {
            assert_eq!(failed, None);
            assert!(candidates.is_empty());
        }
        _ => panic!("a failure is retried"),
    }
}

#[test]
fn unweighted_candidates() {
    let c = Candidate::unweighted(name("a"), Some(&addr(&["10.0.0.1:1"])), false, true).unwrap();
    assert_eq!(c.picked, Some(String::from("10.0.0.1:1")));
    assert!(Candidate::unweighted(name("b"), None, false, true).is_some());
}

fn key(path: &str, image: u8, weak: bool) -> UploadKey {
    UploadKey { path: String::from(path), image: ImageId(vec![image; 4]), weak }
}

#[test]
fn received_report_reaches_uploads_of_its_path() {
    let ups = vec![key("/a", 1, false), key("/b", 1, true), key("/a", 2, true), key("/c", 1, false)];
    assert_eq!(received_targets(&ups, "/a"), vec![0, 2]);
    assert_eq!(received_targets(&ups, "/b"), vec![1]);
    assert!(received_targets(&ups, "/z").is_empty());
    assert!(received_targets(&Vec::new(), "/a").is_empty());
}

#[test]
fn aborted_report_reaches_weak_uploads_of_its_image() {
    let ups = vec![key("/a", 1, false), key("/b", 1, true), key("/a", 2, true), key("/c", 1, false)];
    assert_eq!(aborted_targets(&ups, &ImageId(vec![1; 4]), "/a"), vec![0, 1]);
    assert_eq!(aborted_targets(&ups, &ImageId(vec![2; 4]), "/z"), vec![2]);
    assert_eq!(aborted_targets(&ups, &ImageId(vec![1; 4]), "/c"), vec![1, 3]);
    assert!(aborted_targets(&ups, &ImageId(vec![3; 4]), "/a").is_empty());
}

#[test]
fn messages_queue_and_count_reports() {
    let mut q = SetQueues::new();
    assert!(q.read_message(SetMessage::NewUpload(key("/a", 1, false))).is_empty());
    assert!(q.read_message(SetMessage::NewUpload(key("/b", 1, true))).is_empty());
    assert!(q.read_message(SetMessage::FetchIndex(String::from("/c"))).is_empty());
    assert_eq!(q.uploads.len(), 2);
    assert_eq!(q.fetches, vec![String::from("/c")]);
    let got = q.read_message(SetMessage::Received {
        addr: String::from("10.0.0.1:24783"),
        path: String::from("/b"),
    });
    assert_eq!(got, vec![1]);
    let got = q.read_message(SetMessage::Aborted {
        addr: String::from("10.0.0.1:24783"),
        image: ImageId(vec![1; 4]),
        path: String::from("/a"),
    });
    assert_eq!(got, vec![0, 1]);
    assert!(q.read_message(SetMessage::Other).is_empty());
    q.active.insert(String::from("10.0.0.1:24783"));
    q.active.insert(String::from("10.0.0.2:24783"));
    assert!(q.read_message(SetMessage::Closed(String::from("10.0.0.1:24783"))).is_empty());
    assert!(!q.active.contains(&String::from("10.0.0.1:24783")));
    assert!(q.active.contains(&String::from("10.0.0.2:24783")));
    assert_eq!(q.active.len(), 1);
}
