//! The steps that put a downloaded image in place: each directory of its
//! index is made, each file is checked against its hashes (and made
//! executable when it is one), and each symbolic link is created, in the
//! directory that the index listed last.
use vstd::prelude::*;

use crate::index::{Entry, PathPart};
use crate::index_tree::{clone_hashes, hashes_view};
use crate::link_sources::{clone_path, same_path};

verus! {

/// One step of putting an image in place, in its temporary directory.
pub enum CommitStep {
    /// Make sure the directory at this path exists.
    MakeDir(Vec<PathPart>),
    /// Check the file `name` of directory `dir` against its hashes, and
    /// make it executable when `exe`.
    CheckFile { dir: Vec<PathPart>, name: String, exe: bool, hashes: Vec<Vec<u8>> },
    /// Create the symbolic link `name` in directory `dir`, pointing to
    /// `target`.
    Symlink { dir: Vec<PathPart>, name: String, target: String },
}

/// The last component of a path, when it is a name.
pub open spec fn file_name(p: Seq<PathPart>) -> Option<Seq<char>> {
    if p.len() > 0 {
        match p.last() {
            PathPart::Normal(s) => Some(s@),
            _ => None,
        }
    } else {
        None
    }
}

/// The path of the last directory that the entries list, if any.
pub open spec fn last_dir(s: Seq<Entry>) -> Option<Seq<PathPart>>
    decreases s.len(),
{
    if s.len() == 0 {
        None
    } else {
        match s.last() {
            Entry::Dir(p) => Some(p@),
            _ => last_dir(s.drop_last()),
        }
    }
}

/// The entry at `path` lies in the directory `dir`: it has a name, and its
/// parent is `dir`.
pub open spec fn lies_in(path: Seq<PathPart>, dir: Option<Seq<PathPart>>) -> bool {
    &&& file_name(path) is Some
    &&& dir matches Some(d) && same_path(d, path.drop_last())
}

/// Every file and link of the entries lies in the directory listed last
/// before it (as an index lists them).
pub open spec fn listed_in_order(s: Seq<Entry>) -> bool {
    forall|i: int|
        0 <= i < s.len() ==> match #[trigger] s[i] {
            Entry::Dir(_) => true,
            Entry::File { path, .. } => lies_in(path@, last_dir(s.take(i))),
            Entry::Link(path, _) => lies_in(path@, last_dir(s.take(i))),
        }
}

/// `st` is the step for entry `e`, with `dir` the directory listed last
/// before it.
pub open spec fn step_for(e: Entry, dir: Option<Seq<PathPart>>, st: CommitStep) -> bool {
    match e {
        Entry::Dir(p) => st matches CommitStep::MakeDir(q) && same_path(q@, p@),
        Entry::File { path, exe, hashes, .. } => st matches CommitStep::CheckFile {
            dir: d,
            name,
            exe: x,
            hashes: h,
        } && dir matches Some(dd) && same_path(d@, dd) && file_name(path@) == Some(name@) && x
            == exe && hashes_view(h@) == hashes_view(hashes@),
        Entry::Link(path, target) => st matches CommitStep::Symlink { dir: d, name, target: t }
            && dir matches Some(dd) && same_path(d@, dd) && file_name(path@) == Some(name@) && t@
            == target@,
    }
}

/// The name a path ends with.
pub(crate) fn last_name(p: &Vec<PathPart>) -> (res: String)
    requires
        file_name(p@) is Some,
    ensures
        file_name(p@) == Some(res@),
{
    let n = p.len();
    match &p[n - 1] {
        PathPart::Normal(s) => s.clone(),
        _ => {
            assert(false);
            String::new()
        },
    }
}

/// The steps that put an image with the entries of its index in place, one
/// per entry, in order. A file or a link goes into the directory listed
/// last before it, which must be its parent.
pub fn commit_steps(entries: &Vec<Entry>) -> (res: Vec<CommitStep>)
    requires
        listed_in_order(entries@),
    ensures
        res.len() == entries.len(),
        forall|i: int|
            0 <= i < entries.len() ==> step_for(
                #[trigger] entries@[i],
                last_dir(entries@.take(i)),
                res@[i],
            ),
{
    let mut steps: Vec<CommitStep> = Vec::new();
    let mut cur: Option<Vec<PathPart>> = None;
    let mut i: usize = 0;
    while i < entries.len()
        invariant
            i <= entries.len(),
            listed_in_order(entries@),
            steps.len() == i,
            match cur {
                None => last_dir(entries@.take(i as int)) is None,
                Some(c) => last_dir(entries@.take(i as int)) matches Some(d) && same_path(c@, d),
            },
            forall|j: int|
                0 <= j < i ==> step_for(
                    #[trigger] entries@[j],
                    last_dir(entries@.take(j)),
                    steps@[j],
                ),
        decreases entries.len() - i,
    {
        assert(entries@.take(i + 1).drop_last() =~= entries@.take(i as int));
        let ghost before = steps@;
        let ghost e = entries@[i as int];
        assert(e == entries@[i as int]);
        match &entries[i] {
            Entry::Dir(p) => {
                steps.push(CommitStep::MakeDir(clone_path(p)));
                cur = Some(clone_path(p));
            },
            Entry::File { path, exe, hashes, .. } => {
                assert(lies_in(path@, last_dir(entries@.take(i as int))));
                let d = match &cur {
                    Some(c) => clone_path(c),
                    None => {
                        assert(false);
                        Vec::new()
                    },
                };
                steps.push(
                    CommitStep::CheckFile {
                        dir: d,
                        name: last_name(path),
                        exe: *exe,
                        hashes: clone_hashes(hashes),
                    },
                );
            },
            Entry::Link(path, target) => {
                assert(lies_in(path@, last_dir(entries@.take(i as int))));
                let d = match &cur {
                    Some(c) => clone_path(c),
                    None => {
                        assert(false);
                        Vec::new()
                    },
                };
                steps.push(
                    CommitStep::Symlink { dir: d, name: last_name(path), target: target.clone() },
                );
            },
        }
        proof {
            assert forall|j: int| 0 <= j < i + 1 implies step_for(
                #[trigger] entries@[j],
                last_dir(entries@.take(j)),
                steps@[j],
            ) by {
                if j < i {
                    assert(steps@[j] == before[j]);
                }
            }
        }
        i = i + 1;
    }
    steps
}

} // verus!
