use ciruela::disk::{metrics, Metric};
use ciruela::failure_tracker::{retry_allowed, Failures, RETRY_TIME};
use ciruela::http_route::{route_request, ClusterRoute, Route};
use ciruela::lines::{parse_keep_list, parse_peers, path_component_count, strip_leading_slashes, trim_str};
use ciruela::mask::{AtomicMask, Mask};
use ciruela::named_mutex::{LockError, Mutex};
use ciruela::text::{str_eq, str_starts_with};

fn strings(v: &[&str]) -> Vec<String> {
    v.iter().map(|s| s.to_string()).collect()
}

#[test]
fn disk_metric_names() {
    let m = metrics();
    assert_eq!(
        m,
        vec![
            Metric("disk.hardlinks", "files"),
            Metric("disk.hardlinks", "bytes"),
            Metric("disk.committed", "images"),
            Metric("disk.committed", "bytes"),
            Metric("disk.committed", "blocks"),
            Metric("disk.committed", "paths"),
        ]
    );
}

#[test]
fn failures_reset_allows_retry() {
    let mut f: Failures<u32, _> = Failures::new_default();
    assert!(f.can_try(7));
    f.add_failure(7);
    f.reset(7);
    assert!(f.can_try(7));
    assert!(f.can_try(8));
}

#[test]
fn retry_waits_a_second_per_failure() {
    let per = RETRY_TIME as u128 * 1_000_000;
    assert!(retry_allowed(1, 0));
    assert!(!retry_allowed(0, 0));
    assert!(!retry_allowed(per, 1));
    assert!(retry_allowed(per + 1, 1));
    assert!(!retry_allowed(3 * per, 3));
}

#[test]
fn routes_by_path() {
    assert_eq!(Route::<u8>::parse("/", Some(5)), Route::Websocket(5));
    assert_eq!(Route::<u8>::parse("/", None), Route::NotFound);
    assert_eq!(Route::<u8>::parse("/status/", None), Route::Status);
    assert_eq!(Route::<u8>::parse("/downloading/", None), Route::Downloading);
    assert_eq!(Route::<u8>::parse("/base-dirs/", None), Route::BaseDirs);
    assert_eq!(Route::<u8>::parse("/configs/", None), Route::Configs);
    assert_eq!(Route::<u8>::parse("/deleted/", None), Route::Deleted);
    assert_eq!(
        Route::<u8>::parse("/cluster/downloading/", None),
        Route::Cluster(ClusterRoute::Downloading)
    );
    assert_eq!(
        Route::<u8>::parse("/cluster/deleted/", None),
        Route::Cluster(ClusterRoute::Deleted)
    );
    assert_eq!(Route::<u8>::parse("/cluster/other/", None), Route::NotFound);
    assert_eq!(Route::<u8>::parse("/status", None), Route::NotFound);
}

#[test]
fn keep_list_lines() {
    let lines = strings(&["  /app/v1 ", "# comment", "app/v2", "//app/v3", "app", "a/b/c", "./x"]);
    assert_eq!(parse_keep_list(&lines, 2), strings(&["app/v1", "app/v2", "app/v3", "./x"]));
    assert_eq!(parse_keep_list(&lines, 1), strings(&["app"]));
}

#[test]
fn peer_list_lines() {
    let lines = strings(&["host1.example.com", "", "  # c", " host_2 ", "bad host", "h:1", "A-9"]);
    assert_eq!(parse_peers(&lines), strings(&["host1.example.com", "host_2", "A-9"]));
}

#[test]
fn text_helpers() {
    assert_eq!(trim_str("  a b \t\n"), "a b");
    assert_eq!(strip_leading_slashes("///a/b"), "a/b");
    assert_eq!(path_component_count("a/b"), 2);
    assert_eq!(path_component_count("a//b/"), 2);
    assert_eq!(path_component_count("./a"), 2);
    assert_eq!(path_component_count("a/./b"), 2);
    assert_eq!(path_component_count(""), 0);
    assert!(str_eq("abc", "abc"));
    assert!(!str_eq("abc", "abd"));
    assert!(str_starts_with("/cluster/x", "/cluster/"));
    assert!(!str_starts_with("/clu", "/cluster/"));
}

#[test]
fn masks() {
    assert_eq!(Mask::new().bits(), 0);
    assert_eq!(Mask::from_bits(5).bits(), 5);
    assert_eq!(AtomicMask::new().load().bits(), 0);
    let a = Mask::from_bits(9).to_atomic();
    assert_eq!(a.clone().load().bits(), 9);
}

#[test]
fn named_mutex_locks() {
    let m = Mutex::new(vec![1, 2], "numbers");
    assert_eq!(m.name(), "numbers");
    {
        let mut g = m.lock().unwrap();
        g.push(3);
    }
    assert_eq!(*m.lock().unwrap(), vec![1, 2, 3]);
}

#[test]
fn requests_are_routed() {
    assert_eq!(route_request::<u8>(None, Ok(Some(1))), Route::Websocket(1));
    assert_eq!(route_request::<u8>(Some("/configs/"), Ok(None)), Route::Configs);
    assert_eq!(route_request::<u8>(Some("/"), Err(())), Route::BadRequest);
}

#[test]
fn replies_by_route() {
    let ws: Route<u32> = Route::parse("/", Some(7));
    assert_eq!(ws.status(), 101);
    assert!(ws.hijacks());
    assert_eq!(ws.text_body(), None);
    let missing: Route<u32> = Route::parse("/nothing/", None);
    assert_eq!(missing.status(), 404);
    assert_eq!(missing.text_body(), Some("Not found"));
    assert!(!missing.hijacks());
    let bad: Route<u32> = route_request(Some("/status/"), Err(()));
    assert_eq!(bad.status(), 400);
    assert_eq!(bad.text_body(), Some("Bad Request"));
    let status: Route<u32> = Route::parse("/status/", None);
    assert_eq!(status.status(), 200);
    assert_eq!(status.text_body(), None);
    assert!(!status.hijacks());
}

#[test]
fn guard_reads_what_it_wrote() {
    let m = Mutex::new(vec![7], "seven");
    let mut g = m.lock().unwrap();
    g.push(8);
    assert_eq!(*g, vec![7, 8]);
    let a = Mask::from_bits(0b101).to_atomic();
    assert_eq!(a.clone_mask().load().bits(), 0b101);
}

#[test]
fn held_mutex_is_busy() {
    let m = Mutex::new(1u32, "one");
    let g = m.lock().unwrap();
    assert_eq!(m.lock().err(), Some(LockError::Busy("one")));
    assert_eq!(*g, 1);
    drop(g);
    assert_eq!(*m.lock().unwrap(), 1);
}
