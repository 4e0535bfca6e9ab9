//! Reading the public keys allowed to sign uploads, one per line of a key
//! file.
use vstd::prelude::*;

use ssh_keys::openssh::parse_public_key;
use ssh_keys::PublicKey;

use crate::key_set::views;
use crate::lines::{trim, trim_str};

verus! {

#[verifier::external_type_specification]
#[verifier::external_body]
pub struct ExPublicKey(PublicKey);

/// Whether `ssh_keys::openssh::parse_public_key` accepts a line.
pub uninterp spec fn public_key_accepted(line: Seq<char>) -> bool;

/// The key `ssh_keys::openssh::parse_public_key` reads from a line it
/// accepts.
pub uninterp spec fn parsed_public_key(line: Seq<char>) -> PublicKey;

/// Calls `ssh_keys::openssh::parse_public_key`, which parses one public key
/// in OpenSSH format (its source checks every length it reads, so it does
/// not panic on 64-bit targets); its result depends on the line alone: it
/// succeeds on the lines `public_key_accepted` names, with the key
/// `parsed_public_key` names. The parser's error is dropped.
#[verifier::external_body]
fn public_key(line: &str) -> (res: Option<PublicKey>)
    ensures
        res is Some == public_key_accepted(line@),
        res matches Some(k) ==> k == parsed_public_key(line@),
{
    parse_public_key(line).ok()
}

/// A line of a key file that holds a key: trimmed, it is neither empty nor
/// a comment (starting with `#`).
pub open spec fn is_key_line(line: Seq<char>) -> bool {
    let t = trim(line);
    !(t.len() == 0 || t[0] == '#')
}

/// What reading the lines of a key file gives: the keys of the trimmed key
/// lines, in order, and the position of the line whose key could not be
/// parsed, which ends the reading. Blank lines and comments are skipped.
pub open spec fn key_scan(lines: Seq<Seq<char>>) -> (Seq<PublicKey>, Option<int>)
    decreases lines.len(),
{
    if lines.len() == 0 {
        (Seq::empty(), None)
    } else {
        let (n, failed) = key_scan(lines.drop_last());
        if failed is Some || !is_key_line(lines.last()) {
            (n, failed)
        } else if public_key_accepted(trim(lines.last())) {
            (n.push(parsed_public_key(trim(lines.last()))), None)
        } else {
            (n, Some(lines.len() - 1))
        }
    }
}

proof fn lemma_key_scan_failed(lines: Seq<Seq<char>>, k: int)
    requires
        0 <= k <= lines.len(),
        key_scan(lines.take(k)).1 is Some,
    ensures
        key_scan(lines) == key_scan(lines.take(k)),
    decreases lines.len() - k,
{
    if k < lines.len() {
        assert(lines.take(k + 1).drop_last() =~= lines.take(k));
        lemma_key_scan_failed(lines, k + 1);
    } else {
        assert(lines.take(k) =~= lines);
    }
}

/// Adds the public keys of the lines of a key file to `keys`, in order
/// (see `key_scan`), and gives the position of the line whose key could not
/// be parsed, if any.
pub fn read_public_keys(lines: &Vec<String>, keys: &mut Vec<PublicKey>) -> (res: Option<usize>)
    ensures
        final(keys)@ == old(keys)@ + key_scan(views(lines@)).0,
        match key_scan(views(lines@)).1 {
            Some(k) => res == Some(k as usize),
            None => res is None,
        },
{
    let ghost all = views(lines@);
    let ghost start = keys@;
    let n = lines.len();
    let mut i: usize = 0;
    assert(all.take(0) =~= Seq::<Seq<char>>::empty());
    while i < n
        invariant
            i <= n,
            n == lines@.len(),
            all == views(lines@),
            start == old(keys)@,
            keys@ == start + key_scan(all.take(i as int)).0,
            key_scan(all.take(i as int)).1 is None,
        decreases n - i,
    {
        assert(all.take(i + 1).drop_last() =~= all.take(i as int));
        assert(all.take(i + 1).last() == lines@[i as int]@);
        let line = trim_str(lines[i].as_str());
        if !(line.unicode_len() == 0 || line.get_char(0) == '#') {
            match public_key(line) {
                Some(key) => {
                    keys.push(key);
                    assert(keys@ =~= start + key_scan(all.take(i + 1)).0);
                },
                None => {
                    proof {
                        lemma_key_scan_failed(all, i + 1);
                    }
                    return Some(i);
                },
            }
        }
        i = i + 1;
    }
    assert(all.take(n as int) =~= all);
    None
}

} // verus!
