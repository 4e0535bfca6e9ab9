use ciruela::block_map::{register_blocks, HashSizeError};
use ciruela::index::{Entry, PathPart};

fn file(names: &[&str], size: u64, hashes: Vec<Vec<u8>>) -> Entry {
    let mut path = vec![PathPart::Root];
    for n in names {
        path.push(PathPart::Normal(n.to_string()));
    }
    Entry::File { path, exe: false, size, hashes }
}

fn names(p: &[PathPart]) -> Vec<String> {
    p.iter()
        .map(|c| match c {
            PathPart::Normal(s) => s.clone(),
            PathPart::Root => String::from("/"),
            PathPart::Special => String::from(".."),
        })
        .collect()
}

#[test]
fn blocks_of_files() {
    let entries = vec![
        Entry::Dir(vec![PathPart::Root]),
        file(&["a"], 10, vec![vec![1; 32], vec![2; 32], vec![3; 32]]),
        Entry::Dir(vec![PathPart::Root, PathPart::Normal(String::from("d"))]),
        file(&["d", "b"], 0, vec![]),
        file(&["d", "c"], 4, vec![vec![4; 32]]),
    ];
    let mut out = Vec::new();
    assert_eq!(register_blocks(&entries, 4, &mut out), Ok(()));
    assert_eq!(out.len(), 4);
    let summary: Vec<(u8, Vec<String>, u64, u64)> = out
        .iter()
        .map(|(h, p)| (h.as_bytes()[0], names(&p.path), p.offset, p.size))
        .collect();
    assert_eq!(
        summary,
        vec![
            (1, vec![String::from("a")], 0, 4),
            (2, vec![String::from("a")], 4, 4),
            (3, vec![String::from("a")], 8, 2),
            (4, vec![String::from("d"), String::from("c")], 0, 4),
        ]
    );
}

#[test]
fn blocks_stop_at_bad_hash() {
    let entries = vec![
        file(&["a"], 8, vec![vec![1; 32], vec![2; 16]]),
        file(&["b"], 4, vec![vec![3; 32]]),
    ];
    let mut out = Vec::new();
    assert_eq!(register_blocks(&entries, 4, &mut out), Err(HashSizeError));
    assert_eq!(out.len(), 1);
    assert_eq!(out[0].1.offset, 0);
}
