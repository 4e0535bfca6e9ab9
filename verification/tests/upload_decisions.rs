use ciruela::config::Directory;
use ciruela::signatures::{append_signatures, sort_signatures, ImageId, SignatureEntry, State};
use ciruela::state_files::{is_fresher, parse_state_file_name, state_removal, RemovalRefused};
use ciruela::upload::{
    accept, append_step, append_to_stored, append_while_writing, check_target, finish_change,
    replace_step,
    new_state_file_name, reject, StateFileChange,
    replace_to_stored, replace_while_writing, signature_entries, state_file_name, TargetError,
    Writing,
};

fn entry(timestamp: u64, sig: &[u8]) -> SignatureEntry {
    SignatureEntry { timestamp, signature: sig.to_vec() }
}

fn views(v: &[SignatureEntry]) -> Vec<(u64, Vec<u8>)> {
    v.iter().map(|e| (e.timestamp, e.signature.clone())).collect()
}

fn dir(append_only: bool, num_levels: usize) -> Directory {
    Directory {
        directory: String::from("/srv/apps"),
        append_only,
        num_levels,
        upload_keys: Vec::new(),
        download_keys: Vec::new(),
        auto_clean: false,
        keep_list_file: None,
        keep_min_directories: 1,
        keep_max_directories: 10,
        keep_recent: 1000,
    }
}

#[test]
fn sort_signatures_orders_by_time_then_bytes() {
    let mut v = vec![entry(5, b"b"), entry(3, b"z"), entry(5, b"a"), entry(3, b"y")];
    sort_signatures(&mut v);
    assert_eq!(
        views(&v),
        vec![(3, b"y".to_vec()), (3, b"z".to_vec()), (5, b"a".to_vec()), (5, b"b".to_vec())]
    );
}

#[test]
fn append_signatures_adds_only_new_ones() {
    let mut v = vec![entry(1, b"a"), entry(2, b"b")];
    append_signatures(&mut v, vec![entry(2, b"b"), entry(0, b"c"), entry(0, b"c")]);
    assert_eq!(views(&v), vec![(0, b"c".to_vec()), (1, b"a".to_vec()), (2, b"b".to_vec())]);
}

#[test]
fn append_signatures_twice_changes_nothing() {
    let mut v = vec![entry(1, b"a")];
    append_signatures(&mut v, vec![entry(4, b"d"), entry(2, b"b")]);
    let once = views(&v);
    append_signatures(&mut v, vec![entry(4, b"d"), entry(2, b"b")]);
    assert_eq!(views(&v), once);
}

#[test]
fn signature_entries_stamp_and_sort() {
    let v = signature_entries(7, vec![b"zz".to_vec(), b"aa".to_vec()]);
    assert_eq!(views(&v), vec![(7, b"aa".to_vec()), (7, b"zz".to_vec())]);
}

#[test]
fn accept_and_reject_answers() {
    let a = accept(true);
    assert!(a.accepted && a.new && a.reject_reason.is_none());
    let r = reject("already_exists");
    assert!(!r.accepted && !r.new);
    assert_eq!(r.reject_reason, Some("already_exists"));
}

#[test]
fn append_new_directory_starts_writing() {
    let img = ImageId(vec![1, 2, 3]);
    let (state, wr) = append_to_stored(None, &img, vec![entry(1, b"s")]).unwrap();
    assert_eq!(state.image, img);
    let wr = wr.expect("a new directory is written");
    assert_eq!(wr.image, img);
    assert!(!wr.replacing);
    assert_eq!(views(&wr.signatures), vec![(1, b"s".to_vec())]);
}

#[test]
fn append_same_image_merges_signatures() {
    let img = ImageId(vec![1, 2, 3]);
    let stored = State { image: ImageId(vec![1, 2, 3]), signatures: vec![entry(1, b"s")] };
    let (state, wr) = append_to_stored(Some(stored), &img, vec![entry(0, b"t")]).unwrap();
    assert!(wr.is_none());
    assert_eq!(views(&state.signatures), vec![(0, b"t".to_vec()), (1, b"s".to_vec())]);
}

#[test]
fn append_other_image_is_refused() {
    let img = ImageId(vec![9]);
    let stored = State { image: ImageId(vec![1]), signatures: vec![entry(1, b"s")] };
    let u = append_to_stored(Some(stored), &img, vec![entry(2, b"t")]).err().unwrap();
    assert!(!u.accepted);
    assert_eq!(u.reject_reason, Some("already_exists"));
}

#[test]
fn append_while_writing_same_and_other_image() {
    let mut wr = Writing {
        image: ImageId(vec![5]),
        signatures: vec![entry(1, b"a")],
        replacing: false,
    };
    let st = append_while_writing(&mut wr, &ImageId(vec![5]), vec![entry(2, b"b")]).unwrap();
    assert_eq!(views(&st.signatures), vec![(1, b"a".to_vec()), (2, b"b".to_vec())]);
    assert_eq!(views(&wr.signatures), vec![(1, b"a".to_vec()), (2, b"b".to_vec())]);
    let u = append_while_writing(&mut wr, &ImageId(vec![6]), vec![entry(3, b"c")]).err().unwrap();
    assert_eq!(u.reject_reason, Some("already_uploading_different_version"));
    assert_eq!(views(&wr.signatures), vec![(1, b"a".to_vec()), (2, b"b".to_vec())]);
}

#[test]
fn replace_other_image_starts_replacing() {
    let img = ImageId(vec![2]);
    let stored = State { image: ImageId(vec![1]), signatures: vec![entry(1, b"s")] };
    let (state, wr, replacing) = replace_to_stored(Some(stored), &img, vec![entry(3, b"n")]);
    assert!(replacing);
    assert_eq!(state.image, img);
    assert!(wr.unwrap().replacing);
}

#[test]
fn replace_same_image_merges() {
    let img = ImageId(vec![1]);
    let stored = State { image: ImageId(vec![1]), signatures: vec![entry(1, b"s")] };
    let (state, wr, replacing) = replace_to_stored(Some(stored), &img, vec![entry(1, b"s")]);
    assert!(!replacing);
    assert!(wr.is_none());
    assert_eq!(views(&state.signatures), vec![(1, b"s".to_vec())]);
}

#[test]
fn replace_missing_directory_is_new() {
    let img = ImageId(vec![1]);
    let (_, wr, replacing) = replace_to_stored(None, &img, vec![entry(1, b"s")]);
    assert!(!replacing);
    assert!(!wr.unwrap().replacing);
}

#[test]
fn replace_while_writing_keeps_replacing_flag() {
    let mut wr = Writing { image: ImageId(vec![7]), signatures: vec![], replacing: true };
    let (_, replacing) =
        replace_while_writing(&mut wr, &ImageId(vec![7]), vec![entry(1, b"x")]).unwrap();
    assert!(replacing);
    let u = replace_while_writing(&mut wr, &ImageId(vec![8]), vec![]).err().unwrap();
    assert_eq!(u.reject_reason, Some("already_uploading_different_version"));
}

#[test]
fn check_target_rules() {
    assert_eq!(check_target(None, 1, false).err(), Some(TargetError::PathNotFound));
    let d = dir(true, 2);
    assert_eq!(check_target(Some(&d), 1, false).err(), Some(TargetError::LevelMismatch(1, 2)));
    assert!(check_target(Some(&d), 2, false).unwrap().is_none());
    let u = check_target(Some(&d), 2, true).unwrap().unwrap();
    assert_eq!(u.reject_reason, Some("dir_is_append_only"));
    let open = dir(false, 2);
    assert!(check_target(Some(&open), 2, true).unwrap().is_none());
}

#[test]
fn state_file_names() {
    assert_eq!(state_file_name("v1.2"), "v1.2.state");
    assert_eq!(new_state_file_name("v1.2"), "v1.2.new.state");
    assert_eq!(parse_state_file_name("v1.2.state"), Some((String::from("v1.2"), false)));
    assert_eq!(parse_state_file_name("v1.2.new.state"), Some((String::from("v1.2"), true)));
    assert_eq!(parse_state_file_name("v1.2.yaml"), None);
    assert_eq!(
        parse_state_file_name(&state_file_name("dir")),
        Some((String::from("dir"), false))
    );
}

#[test]
fn state_file_of_dir_named_new() {
    // a directory whose name ends in `.new` reads back as a replacement
    assert_eq!(parse_state_file_name(&state_file_name("a.new")), Some((String::from("a"), true)));
}

#[test]
fn freshness_of_state_files() {
    assert!(is_fresher(100, 100));
    assert!(is_fresher(101, 100));
    assert!(!is_fresher(99, 100));
    assert!(is_fresher(-1, 100));
}

#[test]
fn state_file_removal() {
    assert_eq!(state_removal(true, Some(10), 100), Err(RemovalRefused::Canceled));
    assert_eq!(state_removal(false, None, 100), Err(RemovalRefused::Vanished));
    assert_eq!(state_removal(false, Some(100), 100), Err(RemovalRefused::Canceled));
    assert_eq!(state_removal(false, Some(99), 100), Ok(()));
}

#[test]
fn state_files_when_a_download_ends() {
    assert_eq!(
        finish_change("img", true, true),
        StateFileChange::Rename(String::from("img.new.state"), String::from("img.state"))
    );
    assert_eq!(finish_change("img", false, true), StateFileChange::Keep);
    assert_eq!(finish_change("img", true, false), StateFileChange::Remove(String::from("img.state")));
    assert_eq!(finish_change("img", false, false), StateFileChange::Remove(String::from("img.new.state")));
}

#[test]
fn append_and_replace_steps() {
    let img = ImageId(vec![1; 32]);
    let other = ImageId(vec![2; 32]);
    // a new directory starts being written
    let mut slot = None;
    let (st, file, up) = append_step(&mut slot, None, "d", &img, vec![entry(5, b"a")]).unwrap();
    assert_eq!(file, "d.state");
    assert!(up.accepted && up.new);
    assert_eq!(st.image, img);
    assert!(slot.as_ref().map(|w: &Writing| !w.replacing).unwrap());
    // while it is written, another image is refused
    let u = append_step(&mut slot, None, "d", &other, vec![entry(6, b"b")]).err().unwrap();
    assert_eq!(u.reject_reason, Some("already_uploading_different_version"));
    assert!(slot.is_some());
    // a stored different image refuses an append and is replaced by a replace
    let stored = State { image: img.clone(), signatures: vec![entry(5, b"a")] };
    let mut empty = None;
    let u = append_step(&mut empty, Some(stored), "d", &other, vec![entry(6, b"b")]).err().unwrap();
    assert_eq!(u.reject_reason, Some("already_exists"));
    assert!(empty.is_none());
    let stored = State { image: img.clone(), signatures: vec![entry(5, b"a")] };
    let (st, file, up) =
        replace_step(&mut empty, Some(stored), "d", &other, vec![entry(6, b"b")]).unwrap();
    assert_eq!(file, "d.new.state");
    assert!(up.accepted && up.new);
    assert_eq!(st.image, other);
    assert!(empty.as_ref().unwrap().replacing);
    // the same image while replacing keeps writing the new state file
    let (_, file, up) = replace_step(&mut empty, None, "d", &other, vec![entry(7, b"c")]).unwrap();
    assert_eq!(file, "d.new.state");
    assert!(up.accepted && !up.new);
}
