use ciruela::commit_plan::{commit_steps, CommitStep};
use ciruela::index::{blocks, bytes, Entry, IndexData, PathPart};
use ciruela::index_tree::{IndexParseError, MaterializedIndex, MutableIndex, SealedIndex};
use ciruela::link_sources::{latest_timestamp, scan_links, select_link_sources, MAX_SOURCES};
use ciruela::signatures::{ImageId, SignatureEntry, State};

fn parts(p: &str) -> Vec<PathPart> {
    let mut res = Vec::new();
    if p.starts_with('/') {
        res.push(PathPart::Root);
    }
    for piece in p.split('/') {
        if piece.is_empty() {
            continue;
        }
        if piece == ".." {
            res.push(PathPart::Special);
        } else {
            res.push(PathPart::Normal(piece.to_string()));
        }
    }
    res
}

fn dir(p: &str) -> Entry {
    Entry::Dir(parts(p))
}

fn file(p: &str, exe: bool, size: u64, hash: u8) -> Entry {
    Entry::File { path: parts(p), exe, size, hashes: vec![vec![hash; 4]] }
}

fn link(p: &str, dest: &str) -> Entry {
    Entry::Link(parts(p), dest.to_string())
}

fn ok(entries: Vec<Entry>) -> Vec<Result<Entry, String>> {
    entries.into_iter().map(Ok).collect()
}

fn lookup(ix: &impl MaterializedIndex, p: &str) -> Option<(bool, u64, Vec<Vec<u8>>)> {
    ix.get_file(&parts(p))
}

#[test]
fn entry_bytes_and_blocks() {
    let f = file("/a", false, 10, 1);
    assert_eq!(bytes(&f), 10);
    assert_eq!(blocks(&f, 4), 3);
    assert_eq!(blocks(&f, 5), 2);
    assert_eq!(bytes(&dir("/")), 0);
    assert_eq!(blocks(&link("/l", "x"), 4), 0);
}

#[test]
fn index_data_totals() {
    let entries = vec![
        dir("/"),
        file("/a", false, 10, 1),
        file("/b", true, 0, 2),
        dir("/d"),
        file("/d/c", false, 4097, 3),
        link("/d/l", "../a"),
    ];
    let data = IndexData::from_entries(
        ImageId(vec![1, 2]),
        String::from("blake2b_256"),
        4096,
        entries,
    );
    assert_eq!(data.bytes_total, 4107);
    assert_eq!(data.blocks_total, 3);
    assert_eq!(data.block_size, 4096);
    assert_eq!(data.entries.len(), 6);
}

#[test]
fn index_tree_finds_files() {
    let ix = MutableIndex::from_entries(ok(vec![
        dir("/"),
        file("/a", false, 10, 1),
        dir("/d"),
        file("/d/c", true, 20, 3),
        link("/d/l", "../a"),
        dir("/d/e"),
    ]))
    .unwrap();
    assert_eq!(lookup(&ix, "/a"), Some((false, 10, vec![vec![1; 4]])));
    assert_eq!(lookup(&ix, "/d/c"), Some((true, 20, vec![vec![3; 4]])));
    assert_eq!(lookup(&ix, "/d/l"), None);
    assert_eq!(lookup(&ix, "/d/e"), None);
    assert_eq!(lookup(&ix, "/missing"), None);
    assert_eq!(lookup(&ix, "/a/x"), None);
    assert_eq!(lookup(&ix, "/"), None);
    assert_eq!(lookup(&ix, "/d/../a"), None);
    assert_eq!(lookup(&ix, ""), None);
}

#[test]
fn index_tree_file_goes_to_current_directory() {
    // a file is put in the directory the last directory entry named
    let ix = MutableIndex::from_entries(ok(vec![dir("/x"), file("/y/f", false, 1, 9)])).unwrap();
    assert_eq!(MutableIndex::get_file(&ix, &parts("/x/f")), Some((false, 1, vec![vec![9; 4]])));
    assert_eq!(MutableIndex::get_file(&ix, &parts("/y/f")), None);
}

#[test]
fn index_tree_file_replaces_directory() {
    let ix = MutableIndex::from_entries(ok(vec![
        dir("/d/e"),
        file("/d/e/f", false, 1, 1),
        dir("/d"),
        file("/d/e", false, 2, 2),
    ]))
    .unwrap();
    assert_eq!(lookup(&ix, "/d/e"), Some((false, 2, vec![vec![2; 4]])));
    assert_eq!(lookup(&ix, "/d/e/f"), None);
}

#[test]
fn index_tree_path_conflict() {
    let res = MutableIndex::from_entries(ok(vec![
        dir("/"),
        file("/a", false, 1, 1),
        dir("/a/b"),
    ]));
    match res {
        Err(IndexParseError::PathConflict(p)) => assert_eq!(p.len(), 3),
        _ => panic!("a directory below a file is a conflict"),
    }
}

#[test]
fn index_tree_invalid_paths() {
    match MutableIndex::from_entries(ok(vec![dir("/a/../b")])) {
        Err(IndexParseError::InvalidPath(p)) => assert_eq!(p.len(), 4),
        _ => panic!("`..` has no place in an index"),
    }
    match MutableIndex::from_entries(ok(vec![dir("/"), file("/", false, 1, 1)])) {
        Err(IndexParseError::InvalidPath(p)) => assert_eq!(p.len(), 1),
        _ => panic!("a file needs a name"),
    }
}

#[test]
fn index_tree_read_error() {
    let entries = vec![Ok(dir("/")), Err(String::from("bad line")), Ok(dir("/a/../b"))];
    match MutableIndex::from_entries(entries) {
        Err(IndexParseError::Parse(e)) => assert_eq!(e, "bad line"),
        _ => panic!("the first failure is reported"),
    }
}

fn state(img: u8, times: &[u64]) -> State {
    State {
        image: ImageId(vec![img]),
        signatures: times
            .iter()
            .map(|t| SignatureEntry { timestamp: *t, signature: vec![img] })
            .collect(),
    }
}

fn names(v: &[(String, State)]) -> Vec<String> {
    v.iter().map(|(n, _)| n.clone()).collect()
}

#[test]
fn latest_signature_time() {
    assert_eq!(latest_timestamp(&state(1, &[5, 9, 7])), 9);
    assert_eq!(latest_timestamp(&state(1, &[])), 0);
}

#[test]
fn link_sources_latest_first_one_per_image() {
    let states = vec![
        (String::from("v1"), state(1, &[10])),
        (String::from("v2"), state(2, &[30])),
        (String::from("v3"), state(1, &[20])),
        (String::from("v4"), state(4, &[30])),
        (String::from("v5"), state(5, &[])),
    ];
    let sel = select_link_sources(states, &vec![String::from("v4")]);
    assert_eq!(names(&sel), vec!["v2", "v3", "v5"]);
}

#[test]
fn link_sources_at_most_max() {
    let states: Vec<(String, State)> =
        (0..50u8).map(|i| (format!("d{}", i), state(i, &[i as u64]))).collect();
    let sel = select_link_sources(states, &vec![]);
    assert_eq!(sel.len(), MAX_SOURCES);
    assert_eq!(sel[0].0, "d49");
}

#[test]
fn scan_links_uses_first_matching_source() {
    let new = vec![
        dir("/"),
        file("/a", false, 10, 1),
        file("/b", true, 5, 2),
        file("/c", false, 7, 3),
    ];
    let sources = vec![
        (String::from("/base/v1"), vec![dir("/"), file("/a", false, 10, 1), file("/b", false, 5, 2)]),
        (String::from("/base/v2"), vec![dir("/"), file("/a", false, 10, 1), file("/b", true, 5, 2)]),
    ];
    let links = scan_links(&new, &sources);
    assert_eq!(links.len(), 2);
    assert_eq!(links[0].source, "/base/v1");
    assert_eq!(links[0].size, 10);
    assert_eq!(links[1].source, "/base/v2");
    assert!(links[1].exe);
    assert_eq!(links[1].hashes, vec![vec![2u8; 4]]);
}

fn path_text(p: &Vec<PathPart>) -> String {
    p.iter().map(|c| match c {
        PathPart::Root => String::from("/"),
        PathPart::Normal(n) => format!("{}/", n),
        PathPart::Special => String::from("?/"),
    }).collect()
}

fn step_text(s: &CommitStep) -> String {
    match s {
        CommitStep::MakeDir(p) => format!("mkdir {}", path_text(p)),
        CommitStep::CheckFile { dir, name, exe, hashes } =>
            format!("check {}{} exe={} hashes={}", path_text(dir), name, exe, hashes.len()),
        CommitStep::Symlink { dir, name, target } =>
            format!("link {}{} -> {}", path_text(dir), name, target),
    }
}

#[test]
fn commit_steps_follow_the_index() {
    let entries = vec![
        dir("/"),
        file("/a", false, 10, 1),
        dir("/d"),
        file("/d/run", true, 5, 2),
        link("/d/l", "../a"),
    ];
    let steps: Vec<String> = commit_steps(&entries).iter().map(step_text).collect();
    assert_eq!(steps, vec![
        String::from("mkdir /"),
        String::from("check /a exe=false hashes=1"),
        String::from("mkdir /d/"),
        String::from("check /d/run exe=true hashes=1"),
        String::from("link /d/l -> ../a"),
    ]);
}
