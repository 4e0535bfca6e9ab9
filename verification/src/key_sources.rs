//! Where the client reads its private keys from, and the keys it reads
//! from the texts found there.
use vstd::prelude::*;
use ssh_keys::openssh::parse_private_key;
use ssh_keys::PrivateKey;

use crate::private_key_text::{private_key_text_checked, private_key_text_ok};

verus! {

/// A place a private key is read from.
#[derive(Debug, PartialEq, Eq)]
pub enum KeySource {
    /// A file, by its path as given.
    File(String),
    /// A file under the home directory, by its path relative to it.
    HomeFile(String),
    /// An environment variable, by its name.
    Env(String),
}

/// A place to read keys from, and whether it may be missing.
#[derive(Debug, PartialEq, Eq)]
pub struct KeyRead {
    pub source: KeySource,
    pub optional: bool,
}

/// The variable read when no key is named.
pub open spec fn default_var() -> Seq<char> {
    "CIRUELA_KEY"@
}

/// The files under the home directory read when no key is named.
pub open spec fn default_home_files() -> Seq<Seq<char>> {
    seq![".ssh/id_ed25519"@, ".ssh/id_ciruela"@, ".ciruela/id_ed25519"@]
}

/// `r` reads the file `path`, which must exist.
pub open spec fn reads_file(r: KeyRead, path: Seq<char>) -> bool {
    r.source matches KeySource::File(p) && p@ == path && !r.optional
}

/// `r` reads the variable `name`, which must be set.
pub open spec fn reads_var(r: KeyRead, name: Seq<char>) -> bool {
    r.source matches KeySource::Env(n) && n@ == name && !r.optional
}

/// The places to read keys from, in order. With no identity file and no
/// variable named, the default ones, each of which may be missing: the
/// variable `CIRUELA_KEY`, then, when there is a home directory, three files
/// under it. Otherwise each named file, then each named variable, all of
/// which must be there.
pub fn key_reads(identities: &Vec<String>, key_vars: &Vec<String>, has_home: bool) -> (res: Vec<
    KeyRead,
>)
    ensures
        identities.len() == 0 && key_vars.len() == 0 ==> {
            &&& res.len() == if has_home {
                4int
            } else {
                1int
            }
            &&& res[0].source matches KeySource::Env(n) && n@ == default_var()
            &&& forall|i: int| 0 <= i < res.len() ==> #[trigger] res[i].optional
            &&& forall|i: int|
                1 <= i < res.len() ==> (#[trigger] res[i].source matches KeySource::HomeFile(p)
                    && p@ == default_home_files()[i - 1])
        },
        identities.len() > 0 || key_vars.len() > 0 ==> {
            &&& res.len() == identities.len() + key_vars.len()
            &&& forall|i: int| 0 <= i < identities.len() ==> reads_file(#[trigger] res[i], identities[i]@)
            &&& forall|j: int|
                0 <= j < key_vars.len() ==> reads_var(
                    #[trigger] res[identities.len() + j],
                    key_vars[j]@,
                )
        },
{
    let mut out: Vec<KeyRead> = Vec::new();
    if identities.len() == 0 && key_vars.len() == 0 {
        proof {
            reveal_strlit("CIRUELA_KEY");
            reveal_strlit(".ssh/id_ed25519");
            reveal_strlit(".ssh/id_ciruela");
            reveal_strlit(".ciruela/id_ed25519");
        }
        out.push(KeyRead { source: KeySource::Env(String::from_str("CIRUELA_KEY")), optional: true });
        if has_home {
            out.push(
                KeyRead {
                    source: KeySource::HomeFile(String::from_str(".ssh/id_ed25519")),
                    optional: true,
                },
            );
            out.push(
                KeyRead {
                    source: KeySource::HomeFile(String::from_str(".ssh/id_ciruela")),
                    optional: true,
                },
            );
            out.push(
                KeyRead {
                    source: KeySource::HomeFile(String::from_str(".ciruela/id_ed25519")),
                    optional: true,
                },
            );
        }
        return out;
    }
    let mut i: usize = 0;
    while i < identities.len()
        invariant
            i <= identities.len(),
            out.len() == i,
            forall|k: int| 0 <= k < i ==> reads_file(#[trigger] out[k], identities[k]@),
        decreases identities.len() - i,
    {
        out.push(KeyRead { source: KeySource::File(identities[i].clone()), optional: false });
        i = i + 1;
    }
    let mut j: usize = 0;
    while j < key_vars.len()
        invariant
            j <= key_vars.len(),
            out.len() == identities.len() + j,
            forall|k: int| 0 <= k < identities.len() ==> reads_file(#[trigger] out[k], identities[k]@),
            forall|k: int|
                0 <= k < j ==> reads_var(#[trigger] out[identities.len() + k], key_vars[k]@),
        decreases key_vars.len() - j,
    {
        out.push(KeyRead { source: KeySource::Env(key_vars[j].clone()), optional: false });
        j = j + 1;
    }
    out
}

#[verifier::external_type_specification]
#[verifier::external_body]
pub struct ExPrivateKey(PrivateKey);

/// The keys `ssh_keys::openssh::parse_private_key` reads from a text, in
/// order, or `None` when it refuses the text.
pub uninterp spec fn parsed_private_keys(text: Seq<char>) -> Option<Seq<PrivateKey>>;

/// Whether the private-key parser accepts a text.
pub open spec fn private_keys_accepted(text: Seq<char>) -> bool {
    parsed_private_keys(text) is Some
}

/// Calls `ssh_keys::openssh::parse_private_key`, which reads the keys of a
/// text in OpenSSH (or PEM RSA) format; its result depends on the text
/// alone, and its error is dropped. Its source panics on some malformed
/// texts (an RSA text whose end marker starts inside its begin marker, an
/// ed25519 entry whose secret part is not 64 bytes long, a length field so
/// large that adding it overflows); the texts `private_key_text_ok`
/// describes are none of those.
#[verifier::external_body]
fn private_keys(text: &str) -> (res: Option<Vec<PrivateKey>>)
    requires
        private_key_text_ok(text@),
    ensures
        match res {
            Some(v) => parsed_private_keys(text@) == Some(v@),
            None => parsed_private_keys(text@) is None,
        },
{
    parse_private_key(text).ok()
}

/// What was found at a place keys are read from.
pub enum SourceText {
    /// The text found there.
    Text(String),
    /// Nothing is there: the file or the variable does not exist.
    Missing,
    /// It could not be read, for this reason.
    Unreadable(String),
}

/// Why the private keys could not be read; each error gives the position of
/// the place among those read.
#[derive(Debug)]
pub enum KeyReadError {
    /// A place that must be there is missing.
    Missing(usize),
    /// A place could not be read, for this reason.
    Unreadable(usize, String),
    /// The text of a place is not a private key the parser accepts.
    Unparsable(usize),
}

/// Keys put in front of what reading the rest gives.
pub open spec fn prepend(keys: Seq<PrivateKey>, rest: Result<Seq<PrivateKey>, KeyReadError>) -> Result<
    Seq<PrivateKey>,
    KeyReadError,
> {
    match rest {
        Ok(r) => Ok(keys + r),
        Err(e) => Err(e),
    }
}

/// What reading the places from position `i` on gives: the places are
/// taken in order, and the first that fails decides the error; a missing
/// place fails unless it is optional; a text fails when it is not of the
/// shape `private_key_text_ok` describes or the parser refuses it;
/// otherwise the keys of all texts, in order.
pub open spec fn keys_read_from(reads: Seq<KeyRead>, texts: Seq<SourceText>, i: int) -> Result<
    Seq<PrivateKey>,
    KeyReadError,
>
    decreases texts.len() - i,
{
    if i < 0 || i >= texts.len() {
        Ok(Seq::empty())
    } else {
        match texts[i] {
            SourceText::Missing => if reads[i].optional {
                keys_read_from(reads, texts, i + 1)
            } else {
                Err(KeyReadError::Missing(i as usize))
            },
            SourceText::Unreadable(m) => Err(KeyReadError::Unreadable(i as usize, m)),
            SourceText::Text(t) => if !private_key_text_ok(t@) {
                Err(KeyReadError::Unparsable(i as usize))
            } else {
                match parsed_private_keys(t@) {
                    None => Err(KeyReadError::Unparsable(i as usize)),
                    Some(k) => prepend(k, keys_read_from(reads, texts, i + 1)),
                }
            },
        }
    }
}

/// Two errors are the same: the same kind, position and reason.
pub open spec fn same_error(a: KeyReadError, b: KeyReadError) -> bool {
    match (a, b) {
        (KeyReadError::Missing(i), KeyReadError::Missing(j)) => i == j,
        (KeyReadError::Unreadable(i, m), KeyReadError::Unreadable(j, n)) => i == j && m@ == n@,
        (KeyReadError::Unparsable(i), KeyReadError::Unparsable(j)) => i == j,
        _ => false,
    }
}

/// `res` is the outcome `spec` describes.
pub open spec fn same_outcome(
    res: Result<Vec<PrivateKey>, KeyReadError>,
    spec: Result<Seq<PrivateKey>, KeyReadError>,
) -> bool {
    match (res, spec) {
        (Ok(v), Ok(s)) => v@ == s,
        (Err(a), Err(b)) => same_error(a, b),
        _ => false,
    }
}

/// Reads the private keys from what was found at each place `reads` names
/// (`texts`, in the same order): see `keys_read_from`.
pub fn read_private_keys(reads: &Vec<KeyRead>, texts: &Vec<SourceText>) -> (res: Result<
    Vec<PrivateKey>,
    KeyReadError,
>)
    requires
        reads.len() == texts.len(),
    ensures
        same_outcome(res, keys_read_from(reads@, texts@, 0)),
{
    let mut keys: Vec<PrivateKey> = Vec::new();
    let mut i: usize = 0;
    while i < texts.len()
        invariant
            i <= texts.len(),
            reads.len() == texts.len(),
            keys_read_from(reads@, texts@, 0) == prepend(keys@, keys_read_from(reads@, texts@, i as int)),
        decreases texts.len() - i,
    {
        let ghost before = keys@;
        match &texts[i] {
            SourceText::Missing => {
                if !reads[i].optional {
                    return Err(KeyReadError::Missing(i));
                }
            },
            SourceText::Unreadable(m) => {
                return Err(KeyReadError::Unreadable(i, m.clone()));
            },
            SourceText::Text(t) => {
                if !private_key_text_checked(t.as_str()) {
                    return Err(KeyReadError::Unparsable(i));
                }
                match private_keys(t.as_str()) {
                    None => {
                        return Err(KeyReadError::Unparsable(i));
                    },
                    Some(mut k) => {
                        let ghost kv = k@;
                        keys.append(&mut k);
                        proof {
                            let rest = keys_read_from(reads@, texts@, i + 1);
                            assert(prepend(before, prepend(kv, rest)) == prepend(keys@, rest)) by {
                                match rest {
                                    Ok(r) => {
                                        assert(before + (kv + r) =~= (before + kv) + r);
                                    },
                                    Err(_) => {},
                                }
                            }
                        }
                    },
                }
            },
        }
        i = i + 1;
    }
    assert(keys@ + Seq::<PrivateKey>::empty() =~= keys@);
    Ok(keys)
}

} // verus!
