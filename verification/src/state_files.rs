//! Names and freshness of the files that record directory states, and when
//! a cleanup removes one.
use vstd::prelude::*;

verus! {

/// `s` ends with `suffix`.
pub open spec fn ends_with(s: Seq<char>, suffix: Seq<char>) -> bool {
    suffix.len() <= s.len() && s.skip(s.len() - suffix.len()) == suffix
}

/// Whether `s` ends with `suffix`.
pub fn str_ends_with(s: &str, suffix: &str) -> (res: bool)
    ensures
        res == ends_with(s@, suffix@),
{
    let n = s.unicode_len();
    let m = suffix.unicode_len();
    if m > n {
        return false;
    }
    let mut i: usize = 0;
    while i < m
        invariant
            i <= m,
            m <= n,
            n == s@.len(),
            m == suffix@.len(),
            forall|j: int| 0 <= j < i ==> s@[n - m + j] == suffix@[j],
        decreases m - i,
    {
        if s.get_char(n - m + i) != suffix.get_char(i) {
            assert(s@.skip(n - m)[i as int] != suffix@[i as int]);
            return false;
        }
        i = i + 1;
    }
    assert(s@.skip(n - m) =~= suffix@);
    true
}

/// A file of a directory is listed for `suffix` when its name does not
/// start with a dot (hidden and temporary files) and ends with `suffix`.
pub open spec fn is_listed(name: Seq<char>, suffix: Seq<char>) -> bool {
    !(name.len() > 0 && name[0] == '.') && ends_with(name, suffix)
}

/// Whether the file `name` is listed for `suffix`.
pub fn is_listed_file(name: &str, suffix: &str) -> (res: bool)
    ensures
        res == is_listed(name@, suffix@),
{
    if name.unicode_len() > 0 && name.get_char(0) == '.' {
        return false;
    }
    str_ends_with(name, suffix)
}

/// The directory a state file is for, and whether it records an image
/// replacing the directory (a `.new.state` file).
pub open spec fn state_file_spec(name: Seq<char>) -> Option<(Seq<char>, bool)> {
    if ends_with(name, ".new.state"@) {
        Some((name.take(name.len() - 10), true))
    } else if ends_with(name, ".state"@) {
        Some((name.take(name.len() - 6), false))
    } else {
        None
    }
}

/// Reads the name of a state file: the directory it is for, and whether it
/// records an image replacing the directory; `None` for other files.
pub fn parse_state_file_name(name: &str) -> (res: Option<(String, bool)>)
    ensures
        match state_file_spec(name@) {
            Some((dir, replacing)) => res matches Some(r) && r.0@ == dir && r.1 == replacing,
            None => res is None,
        },
{
    proof {
        reveal_strlit(".new.state");
        reveal_strlit(".state");
    }
    let n = name.unicode_len();
    if str_ends_with(name, ".new.state") {
        let base = name.substring_char(0, n - 10);
        Some((base.to_owned(), true))
    } else if str_ends_with(name, ".state") {
        let base = name.substring_char(0, n - 6);
        Some((base.to_owned(), false))
    } else {
        None
    }
}

/// A file modified at `mtime` (seconds since the epoch, as `stat` gives it)
/// is fresher than the time `secs` (seconds since the epoch) when its time
/// is past `secs - 1`, that is, when it was modified in the second `secs` or
/// later. A negative `mtime` is read as an unsigned number, as a cast does.
pub open spec fn fresher(mtime: i64, secs: u64) -> bool {
    let m: int = if mtime < 0 {
        mtime + 0x1_0000_0000_0000_0000
    } else {
        mtime as int
    };
    m > secs - 1
}

/// Whether a file modified at `mtime` is fresher than the time `secs`.
pub fn is_fresher(mtime: i64, secs: u64) -> (res: bool)
    requires
        secs >= 1,
    ensures
        res == fresher(mtime, secs),
{
    let m: u64 = if mtime < 0 {
        let neg: u64 = (-(mtime + 1)) as u64;
        u64::MAX - neg
    } else {
        mtime as u64
    };
    m > secs - 1
}

/// Why the state file of a directory is kept by a cleanup.
#[derive(Debug, PartialEq, Eq)]
pub enum RemovalRefused {
    /// An image is being written into the directory, or the file changed
    /// since the cleanup looked at it.
    Canceled,
    /// The file is gone.
    Vanished,
}

/// Whether a cleanup that chose a directory at `secs` (seconds since the
/// epoch) removes its state file: not while an image is being written into
/// the directory, not when the file is gone (`mtime` is `None`), and not
/// when it was modified since (see `fresher`).
pub fn state_removal(writing: bool, mtime: Option<i64>, secs: u64) -> (res: Result<
    (),
    RemovalRefused,
>)
    requires
        secs >= 1,
    ensures
        res == if writing {
            Err(RemovalRefused::Canceled)
        } else {
            match mtime {
                None => Err(RemovalRefused::Vanished),
                Some(m) => if fresher(m, secs) {
                    Err(RemovalRefused::Canceled)
                } else {
                    Ok(())
                },
            }
        },
{
    if writing {
        return Err(RemovalRefused::Canceled);
    }
    match mtime {
        None => Err(RemovalRefused::Vanished),
        Some(m) => if is_fresher(m, secs) {
            Err(RemovalRefused::Canceled)
        } else {
            Ok(())
        },
    }
}

/// The name of a directory's state file reads back as that directory, and
/// the name of the state file of an image replacing it reads back as that
/// directory, replaced; for a directory whose name ends in `.new`, the plain
/// state file reads as a replacement of the name without it.
pub proof fn lemma_state_file_names(name: Seq<char>)
    ensures
        state_file_spec(name + ".new.state"@) == Some((name, true)),
        !ends_with(name, ".new"@) ==> state_file_spec(name + ".state"@) == Some((name, false)),
{
    reveal_strlit(".new.state");
    reveal_strlit(".state");
    reveal_strlit(".new");
    let a = name + ".new.state"@;
    assert(a.skip(a.len() - 10) =~= ".new.state"@);
    assert(a.take(a.len() - 10) =~= name);
    let b = name + ".state"@;
    assert(b.skip(b.len() - 6) =~= ".state"@);
    assert(b.take(b.len() - 6) =~= name);
    if !ends_with(name, ".new"@) && ends_with(b, ".new.state"@) {
        assert(name.len() >= 4);
        assert forall|k: int| 0 <= k < 4 implies name.skip(name.len() - 4)[k] == ".new"@[k] by {
            assert(name.skip(name.len() - 4)[k] == b[name.len() - 4 + k]);
            assert(b.skip(b.len() - 10)[k] == b[b.len() - 10 + k]);
        }
        assert(name.skip(name.len() - 4) =~= ".new"@);
        assert(false);
    }
}

} // verus!
