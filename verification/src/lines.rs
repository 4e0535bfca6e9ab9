//! Reading of line-oriented files: the keep list of a base directory and
//! the list of peers.
use vstd::prelude::*;

use regex::Regex;

use crate::key_set::views;

verus! {

/// A whitespace character (the Unicode `White_Space` property, which
/// `char::is_whitespace` and `str::trim` use).
pub open spec fn is_ws(c: char) -> bool {
    ('\u{9}' <= c <= '\u{d}') || c == ' ' || c == '\u{85}' || c == '\u{a0}' || c == '\u{1680}'
        || ('\u{2000}' <= c <= '\u{200a}') || c == '\u{2028}' || c == '\u{2029}' || c
        == '\u{202f}' || c == '\u{205f}' || c == '\u{3000}'
}

/// Whether `c` is whitespace.
pub fn char_is_ws(c: char) -> (res: bool)
    ensures
        res == is_ws(c),
{
    ('\u{9}' <= c && c <= '\u{d}') || c == ' ' || c == '\u{85}' || c == '\u{a0}' || c == '\u{1680}'
        || ('\u{2000}' <= c && c <= '\u{200a}') || c == '\u{2028}' || c == '\u{2029}' || c
        == '\u{202f}' || c == '\u{205f}' || c == '\u{3000}'
}

/// `s` without its leading whitespace.
pub open spec fn trim_start(s: Seq<char>) -> Seq<char>
    decreases s.len(),
{
    if s.len() > 0 && is_ws(s[0]) {
        trim_start(s.drop_first())
    } else {
        s
    }
}

/// `s` without its trailing whitespace.
pub open spec fn trim_end(s: Seq<char>) -> Seq<char>
    decreases s.len(),
{
    if s.len() > 0 && is_ws(s.last()) {
        trim_end(s.drop_last())
    } else {
        s
    }
}

/// `s` without leading and trailing whitespace.
pub open spec fn trim(s: Seq<char>) -> Seq<char> {
    trim_end(trim_start(s))
}

/// `s` without its leading `c` characters.
pub open spec fn strip_leading(s: Seq<char>, c: char) -> Seq<char>
    decreases s.len(),
{
    if s.len() > 0 && s[0] == c {
        strip_leading(s.drop_first(), c)
    } else {
        s
    }
}

/// The parts of `s` between `sep` characters (empty parts included).
pub open spec fn split_char(s: Seq<char>, sep: char) -> Seq<Seq<char>>
    decreases s.len(),
{
    if s.len() == 0 {
        seq![Seq::empty()]
    } else {
        let rest = split_char(s.drop_last(), sep);
        if s.last() == sep {
            rest.push(Seq::empty())
        } else {
            rest.update(rest.len() - 1, rest.last().push(s.last()))
        }
    }
}

/// A part of a path that is a component of its own: not empty and not `.`.
pub open spec fn is_named_part(p: Seq<char>) -> bool {
    p.len() > 0 && p != seq!['.']
}

/// The number of named parts.
pub open spec fn named_parts(parts: Seq<Seq<char>>) -> nat
    decreases parts.len(),
{
    if parts.len() == 0 {
        0
    } else {
        named_parts(parts.drop_last()) + if is_named_part(parts.last()) {
            1nat
        } else {
            0nat
        }
    }
}

/// The number of components of a relative path (what `Path::iter().count()`
/// gives): separators in a row count once, `.` parts are dropped, except a
/// leading `.`, which is a component of its own.
pub open spec fn component_count(s: Seq<char>) -> nat {
    let parts = split_char(s, '/');
    named_parts(parts) + if parts[0] == seq!['.'] {
        1nat
    } else {
        0nat
    }
}

/// A prefix of `s`, from the start up to `i`.
proof fn lemma_split_len(s: Seq<char>, sep: char)
    ensures
        split_char(s, sep).len() >= 1,
    decreases s.len(),
{
    if s.len() > 0 {
        lemma_split_len(s.drop_last(), sep);
    }
}

/// `s` without leading and trailing whitespace.
pub fn trim_str(s: &str) -> (res: &str)
    ensures
        res@ == trim(s@),
{
    let n = s.unicode_len();
    let mut a: usize = 0;
    assert(s@.skip(0) =~= s@);
    while a < n && char_is_ws(s.get_char(a))
        invariant
            a <= n,
            n == s@.len(),
            trim_start(s@.skip(a as int)) == trim_start(s@),
        decreases n - a,
    {
        assert(s@.skip(a as int).drop_first() =~= s@.skip(a + 1));
        a = a + 1;
    }
    assert(trim_start(s@) == s@.skip(a as int));
    let mut b: usize = n;
    assert(s@.subrange(a as int, n as int) =~= s@.skip(a as int));
    while b > a && char_is_ws(s.get_char(b - 1))
        invariant
            a <= b <= n,
            n == s@.len(),
            trim_end(s@.subrange(a as int, b as int)) == trim(s@),
        decreases b,
    {
        assert(s@.subrange(a as int, b as int).drop_last() =~= s@.subrange(a as int, b - 1));
        b = b - 1;
    }
    s.substring_char(a, b)
}

/// `s` without its leading slashes.
pub fn strip_leading_slashes(s: &str) -> (res: &str)
    ensures
        res@ == strip_leading(s@, '/'),
{
    let n = s.unicode_len();
    let mut a: usize = 0;
    assert(s@.skip(0) =~= s@);
    while a < n && s.get_char(a) == '/'
        invariant
            a <= n,
            n == s@.len(),
            strip_leading(s@.skip(a as int), '/') == strip_leading(s@, '/'),
        decreases n - a,
    {
        assert(s@.skip(a as int).drop_first() =~= s@.skip(a + 1));
        a = a + 1;
    }
    s.substring_char(a, n)
}

/// The number of components of a relative path.
pub fn path_component_count(s: &str) -> (res: usize)
    ensures
        res == component_count(s@),
{
    let n = s.unicode_len();
    let ghost mut parts: Seq<Seq<char>> = seq![Seq::empty()];
    let mut completed: usize = 0;
    let mut cur_len: usize = 0;
    let mut cur_dot = false;
    let mut seen_sep = false;
    let mut first_dot = false;
    let mut i: usize = 0;
    assert(s@.take(0) =~= Seq::<char>::empty());
    while i < n
        invariant
            i <= n,
            n == s@.len(),
            parts == split_char(s@.take(i as int), '/'),
            parts.len() >= 1,
            completed == named_parts(parts.drop_last()),
            completed + cur_len + (if seen_sep && first_dot {
                1int
            } else {
                0int
            }) <= i,
            cur_len == parts.last().len(),
            cur_dot == (parts.last() == seq!['.']),
            seen_sep == (parts.len() > 1),
            seen_sep ==> first_dot == (parts[0] == seq!['.']),
        decreases n - i,
    {
        let c = s.get_char(i);
        proof {
            assert(s@.take(i + 1).drop_last() =~= s@.take(i as int));
            assert(s@.take(i + 1).last() == c);
        }
        if c == '/' {
            if !seen_sep {
                first_dot = cur_dot;
            }
            if cur_len > 0 && !cur_dot {
                completed = completed + 1;
            }
            proof {
                let old_parts = parts;
                parts = parts.push(Seq::empty());
                assert(parts.drop_last() =~= old_parts);
                assert(named_parts(old_parts) == named_parts(old_parts.drop_last()) + if is_named_part(
                    old_parts.last(),
                ) {
                    1nat
                } else {
                    0nat
                });
                assert(parts[0] == old_parts[0]);
            }
            cur_len = 0;
            cur_dot = false;
            seen_sep = true;
        } else {
            proof {
                let old_parts = parts;
                parts = parts.update(parts.len() - 1, parts.last().push(c));
                assert(parts.drop_last() =~= old_parts.drop_last());
                if old_parts.len() > 1 {
                    assert(parts[0] == old_parts[0]);
                }
                assert(parts.last() == old_parts.last().push(c));
                if old_parts.last().len() == 0 && c == '.' {
                    assert(parts.last() =~= seq!['.']);
                } else if old_parts.last().len() == 0 {
                    assert(parts.last()[0] != '.');
                } else {
                    assert(parts.last().len() > 1);
                }
            }
            cur_dot = cur_len == 0 && c == '.';
            cur_len = cur_len + 1;
        }
        i = i + 1;
    }
    assert(s@.take(n as int) =~= s@);
    proof {
        assert(named_parts(parts) == named_parts(parts.drop_last()) + if is_named_part(
            parts.last(),
        ) {
            1nat
        } else {
            0nat
        });
        if !seen_sep {
            assert(parts[0] == parts.last());
        }
    }
    let last = if cur_len > 0 && !cur_dot {
        1
    } else {
        0
    };
    let lead = if seen_sep {
        if first_dot {
            1
        } else {
            0
        }
    } else if cur_dot {
        1
    } else {
        0
    };
    completed + last + lead
}

/// A keep-list line names the directory `Some(path)`: the line is trimmed,
/// comments (starting with `#`) are skipped, leading slashes are dropped, and
/// the path must have exactly `num_levels` components.
pub open spec fn keep_entry(line: Seq<char>, num_levels: nat) -> Option<Seq<char>> {
    let t = trim(line);
    if t.len() > 0 && t[0] == '#' {
        None
    } else {
        let p = strip_leading(t, '/');
        if component_count(p) == num_levels {
            Some(p)
        } else {
            None
        }
    }
}

/// The entries of the lines, in order.
pub open spec fn keep_entries(lines: Seq<Seq<char>>, num_levels: nat) -> Seq<Seq<char>>
    decreases lines.len(),
{
    if lines.len() == 0 {
        Seq::empty()
    } else {
        let rest = keep_entries(lines.drop_last(), num_levels);
        match keep_entry(lines.last(), num_levels) {
            Some(p) => rest.push(p),
            None => rest,
        }
    }
}

/// The directories a keep list names (its lines given in order), relative to
/// the base directory.
pub fn parse_keep_list(lines: &Vec<String>, num_levels: usize) -> (res: Vec<String>)
    ensures
        views(res@) == keep_entries(views(lines@), num_levels as nat),
{
    let ghost all = views(lines@);
    let mut res: Vec<String> = Vec::new();
    let n = lines.len();
    let mut i: usize = 0;
    assert(all.take(0) =~= Seq::<Seq<char>>::empty());
    assert(views(res@) =~= Seq::<Seq<char>>::empty());
    while i < n
        invariant
            i <= n,
            n == lines@.len(),
            all == views(lines@),
            views(res@) == keep_entries(all.take(i as int), num_levels as nat),
        decreases n - i,
    {
        let line = trim_str(lines[i].as_str());
        proof {
            assert(all.take(i + 1).drop_last() =~= all.take(i as int));
            assert(all.take(i + 1).last() == lines@[i as int]@);
        }
        let comment = line.unicode_len() > 0 && line.get_char(0) == '#';
        if !comment {
            let p = strip_leading_slashes(line);
            if path_component_count(p) == num_levels {
                let ghost before = res@;
                res.push(p.to_owned());
                assert(views(res@) =~= views(before).push(p@));
            }
        }
        i = i + 1;
    }
    assert(all.take(n as int) =~= all);
    res
}

/// A character allowed in a peer's host name.
pub open spec fn hostname_char(c: char) -> bool {
    ('a' <= c <= 'z') || ('A' <= c <= 'Z') || ('0' <= c <= '9') || c == '.' || c == '_' || c
        == '-'
}

/// A valid host name of a peer: one or more allowed characters.
pub open spec fn is_hostname(s: Seq<char>) -> bool {
    s.len() > 0 && forall|i: int| 0 <= i < s.len() ==> hostname_char(#[trigger] s[i])
}

/// The pattern peer host names are checked with.
pub open spec fn hostname_pattern() -> Seq<char> {
    "^[a-zA-Z0-9\\._-]+$"@
}

/// Calls `regex::Regex::new` with the host-name pattern and `Regex::is_match`
/// on `text`. By the crate's documentation of the syntax the pattern is
/// valid (so compiling it does not fail) and matches exactly the texts of one
/// or more characters among ASCII letters, digits, `.`, `_` and `-` (`^` and
/// `$` anchor at the start and end of the text).
#[verifier::external_body]
fn hostname_regex_matches(pattern: &str, text: &str) -> (res: bool)
    requires
        pattern@ == hostname_pattern(),
    ensures
        res == is_hostname(text@),
{
    Regex::new(pattern).expect("regex compiles").is_match(text)
}

/// A peers-file line names the peer `Some(host)`: the line is trimmed, empty
/// lines and comments (starting with `#`) are skipped, and the rest must be a
/// valid host name.
pub open spec fn peer_entry(line: Seq<char>) -> Option<Seq<char>> {
    let t = trim(line);
    if t.len() == 0 || t[0] == '#' {
        None
    } else if is_hostname(t) {
        Some(t)
    } else {
        None
    }
}

/// The peers the lines name, in order.
pub open spec fn peer_entries(lines: Seq<Seq<char>>) -> Seq<Seq<char>>
    decreases lines.len(),
{
    if lines.len() == 0 {
        Seq::empty()
    } else {
        let rest = peer_entries(lines.drop_last());
        match peer_entry(lines.last()) {
            Some(p) => rest.push(p),
            None => rest,
        }
    }
}

/// The peers named by the lines of a peers file, in order.
pub fn parse_peers(lines: &Vec<String>) -> (res: Vec<String>)
    ensures
        views(res@) == peer_entries(views(lines@)),
{
    let pattern = "^[a-zA-Z0-9\\._-]+$";
    let ghost all = views(lines@);
    let mut res: Vec<String> = Vec::new();
    let n = lines.len();
    let mut i: usize = 0;
    assert(all.take(0) =~= Seq::<Seq<char>>::empty());
    assert(views(res@) =~= Seq::<Seq<char>>::empty());
    while i < n
        invariant
            i <= n,
            n == lines@.len(),
            all == views(lines@),
            pattern@ == hostname_pattern(),
            views(res@) == peer_entries(all.take(i as int)),
        decreases n - i,
    {
        let line = trim_str(lines[i].as_str());
        proof {
            assert(all.take(i + 1).drop_last() =~= all.take(i as int));
            assert(all.take(i + 1).last() == lines@[i as int]@);
        }
        let skip = line.unicode_len() == 0 || line.get_char(0) == '#';
        if !skip && hostname_regex_matches(pattern, line) {
            let ghost before = res@;
            res.push(line.to_owned());
            assert(views(res@) =~= views(before).push(line@));
        }
        i = i + 1;
    }
    assert(all.take(n as int) =~= all);
    res
}

} // verus!
