use std::sync::Arc;
use std::time::{SystemTime, UNIX_EPOCH};

use ciruela::cleanup::{sort_out, Sorted};
use ciruela::config::Directory;
use ciruela::signatures::{ImageId, SignatureEntry, State};
use humantime::parse_duration;
use rand::{thread_rng, RngCore};

fn cfg(min: usize, max: usize, rec: &str) -> Arc<Directory> {
    Arc::new(Directory {
        directory: String::from("<nowhere>"),
        append_only: true, // doesn't matter
        num_levels: 1,
        upload_keys: Vec::new(),
        download_keys: Vec::new(),
        auto_clean: true,
        keep_list_file: None, // doesn't matter
        keep_min_directories: min,
        keep_max_directories: max,
        keep_recent: parse_duration(rec).unwrap().as_millis() as u64,
    })
}

fn id() -> ImageId {
    let mut arr = vec![0u8; 32];
    thread_rng().fill_bytes(&mut arr[..]);
    ImageId(arr)
}

fn sig() -> Vec<u8> {
    let mut arr = vec![0u8; 64];
    thread_rng().fill_bytes(&mut arr[..]);
    arr
}

fn fake_state() -> State {
    State {
        image: id(),
        signatures: Vec::new(),
    }
}

fn simple_sort(config: &Arc<Directory>, items: Vec<(u32, State)>, keep_list: &Vec<u32>)
    -> Sorted<u32>
{
    let r = sort_out(config, items, keep_list);
    Sorted {
        used: r.used.into_iter().map(|(x, _)| x).collect(),
        unused: r.unused.into_iter().map(|(x, _)| x).collect(),
    }
}

fn now_ms() -> u64 {
    SystemTime::now().duration_since(UNIX_EPOCH).unwrap().as_millis() as u64
}

fn state_at(from_now: &str) -> State {
    let time = now_ms() - parse_duration(from_now).unwrap().as_millis() as u64;
    State {
        image: id(),
        signatures: vec![SignatureEntry {
            timestamp: time,
            signature: sig(),
        }],
    }
}

fn check(r: Sorted<u32>, used: Vec<u32>, unused: Vec<u32>) {
    assert_eq!((r.used, r.unused), (used, unused));
}

#[test]
fn test_zero() {
    check(simple_sort(&cfg(1, 2, "1 day"), vec![], &vec![]), vec![], vec![]);
}

#[test]
fn test_few() {
    check(simple_sort(&cfg(1, 2, "1 day"), vec![(1, fake_state())], &vec![]), vec![1], vec![]);
}

#[test]
fn test_recent() {
    check(
        simple_sort(
            &cfg(1, 100, "1 day"),
            vec![(1, state_at("1 hour")), (2, state_at("1 week")), (3, state_at("1 sec"))],
            &vec![],
        ),
        vec![1, 3],
        vec![2],
    );
}

#[test]
fn test_few_recent() {
    check(
        simple_sort(
            &cfg(2, 100, "1 min"),
            vec![(1, state_at("1 hour")), (2, state_at("1 week")), (3, state_at("1 sec"))],
            &vec![],
        ),
        vec![3, 1],
        vec![2],
    );
}

#[test]
fn test_more_than_max() {
    check(
        simple_sort(
            &cfg(1, 2, "1 day"),
            vec![
                (1, state_at("1 week")),
                (2, state_at("1 hour")),
                (3, state_at("30 min")),
                (4, state_at("2 min")),
                (5, state_at("1 year")),
            ],
            &vec![],
        ),
        vec![4, 3],
        vec![1, 5, 2],
    );
}

#[test]
fn test_keep_list() {
    check(
        simple_sort(
            &cfg(1, 2, "1 day"),
            vec![
                (1, state_at("1 week")),
                (2, state_at("1 hour")),
                (3, state_at("30 min")),
                (4, state_at("2 min")),
                (5, state_at("1 year")),
            ],
            &vec![5],
        ),
        vec![4, 3, 5],
        vec![1, 2],
    );
}
