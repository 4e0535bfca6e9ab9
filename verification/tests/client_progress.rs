use ciruela::cli::TargetUrl;
use ciruela::client_progress::{
    address_result, index_size_ok, paths_to_sign, upload_succeeded, ClientProgress, Status,
};
use ciruela::cluster_rules::{aborted_applies, received_applies, slots_left, wants_connections};
use ciruela::machine_id::MachineId;

fn mid(n: u8) -> MachineId {
    MachineId::new(&[n; 32])
}

fn s(x: &str) -> String {
    x.to_string()
}

#[test]
fn progress_completes_when_addresses_report() {
    let mut p = ClientProgress::new();
    p.need_addresses(vec![s("1.1.1.1:24783"), s("2.2.2.2:24783")]);
    p.add_ids(vec![(mid(1), s("one")), (mid(2), s("two")), (mid(3), s("three"))]);
    assert_eq!(
        p.received(&s("1.1.1.1:24783"), mid(1), s("one"), false),
        Status::Fetching { done: 1, total: 1 + 3 + 1 }
    );
    // a forwarded report does not count for the address
    assert_eq!(
        p.received(&s("1.1.1.1:24783"), mid(3), s("three"), true),
        Status::Fetching { done: 2, total: 2 + 3 + 1 }
    );
    assert_eq!(
        p.received(&s("2.2.2.2:24783"), mid(2), s("two"), false),
        Status::Complete { hosts: 3, first: true }
    );
    assert_eq!(p.check_status(), Status::Complete { hosts: 3, first: false });
    assert!(p.is_ok());
    assert_eq!(p.closed(&s("2.2.2.2:24783")), None);
    assert_eq!(p.hosts_done().len(), 3);
}

#[test]
fn progress_ids_of_done_machines_are_not_needed() {
    let mut p = ClientProgress::new();
    p.need_addresses(vec![s("a"), s("a")]);
    p.received(&s("b"), mid(1), s("one"), true);
    p.add_ids(vec![(mid(1), s("one")), (mid(2), s("two"))]);
    assert_eq!(p.check_status(), Status::Fetching { done: 1, total: 1 + 1 + 1 });
}

#[test]
fn progress_failures() {
    let mut p = ClientProgress::new();
    p.need_addresses(vec![s("a"), s("b"), s("c")]);
    assert_eq!(p.aborted(&s("a"), false), Status::Fetching { done: 0, total: 2 });
    assert!(!p.is_ok());
    assert_eq!(p.closed(&s("b")), Some(Status::Fetching { done: 0, total: 1 }));
    p.forget_address(&s("c"));
    assert_eq!(p.check_status(), Status::Complete { hosts: 0, first: true });
}

#[test]
fn address_results() {
    assert!(address_result(true, None, false, Some(true)));
    assert!(!address_result(true, None, false, Some(false)));
    assert!(!address_result(true, None, false, None));
    assert!(address_result(false, Some("already_exists"), false, None));
    assert!(!address_result(false, Some("already_exists"), true, None));
    assert!(!address_result(false, Some("signature_mismatch"), false, None));
    assert!(!address_result(false, None, false, None));
}

#[test]
fn upload_result_needs_every_target() {
    assert!(upload_succeeded(&vec![vec![false, true], vec![true]]));
    assert!(!upload_succeeded(&vec![vec![false, true], vec![false]]));
    assert!(!upload_succeeded(&vec![vec![]]));
    assert!(upload_succeeded(&vec![]));
}

#[test]
fn cluster_connection_rules() {
    assert!(wants_connections(0, 3, 2));
    assert!(!wants_connections(3, 3, 0));
    assert!(!wants_connections(1, 3, 3));
    assert_eq!(slots_left(3, 1), 2);
    assert_eq!(slots_left(3, 5), 0);
    assert!(received_applies("/a/b", "/a/b", false));
    assert!(!received_applies("/a/b", "/a/c", true));
    let img = ciruela::signatures::ImageId(vec![1, 2]);
    let other = ciruela::signatures::ImageId(vec![3]);
    assert!(aborted_applies(&img, "/a/b", false, &img, "/a/b"));
    assert!(!aborted_applies(&img, "/a/b", false, &img, "/a/c"));
    assert!(aborted_applies(&img, "/a/b", true, &img, "/a/c"));
    assert!(!aborted_applies(&img, "/a/b", true, &other, "/a/b"));
}

#[test]
fn index_size_limit() {
    assert!(index_size_ok(0));
    assert!(index_size_ok(100 << 20));
    assert!(!index_size_ok((100 << 20) + 1));
}

#[test]
fn each_path_signed_once() {
    let targets: Vec<TargetUrl> = ["a.example:/dir/one", "b.example:/dir/two", "c.example:/dir/one"]
        .iter().map(|t| TargetUrl::parse(t).unwrap()).collect();
    assert_eq!(paths_to_sign(&targets), vec![String::from("/dir/one"), String::from("/dir/two")]);
}
