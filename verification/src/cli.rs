//! Parsing of the client's command-line arguments.
use vstd::prelude::*;
use abstract_ns::Name;
use std::str::FromStr;

use crate::key_set::views;
use crate::names::{clone_name, name_check, parse_name, parsed_name, problem_message};
use crate::text::str_eq;

verus! {

/// Options shared by all client commands.
pub struct GlobalOptions {
    pub destination_port: u16,
    pub threads: usize,
}

impl GlobalOptions {
    /// The defaults: port 24783 and 4 threads.
    pub fn new() -> (res: GlobalOptions)
        ensures
            res.destination_port == 24783,
            res.threads == 4,
    {
        GlobalOptions { destination_port: 24783, threads: 4 }
    }
}

/// Where to upload: a host and an absolute path on it.
#[derive(Debug)]
pub struct TargetUrl {
    pub host: Name,
    pub path: String,
}

impl Clone for TargetUrl {
    fn clone(&self) -> (res: TargetUrl)
        ensures
            res.host == self.host,
            res.path@ == self.path@,
    {
        TargetUrl { host: clone_name(&self.host), path: self.path.clone() }
    }
}

/// The position of the first `:` in `s`, if any.
pub open spec fn first_colon(s: Seq<char>) -> Option<int> {
    if exists|i: int| 0 <= i < s.len() && s[i] == ':' {
        Some(choose|i: int| 0 <= i < s.len() && s[i] == ':' && forall|j: int| 0 <= j < i ==> s[j] != ':')
    } else {
        None
    }
}

/// The message for a target without a colon.
pub open spec fn no_colon_message() -> Seq<char> {
    "Target URL must be in format `host:/path`"@
}

/// The message for a target whose path is not absolute.
pub open spec fn relative_path_message() -> Seq<char> {
    "Path must start with slash"@
}

/// How `host:/path` is read: the host is what precedes the first colon and
/// must be a valid name, the path is the rest and must start with a slash.
/// The result is the host's text and the path, or the error message.
pub open spec fn target_url_spec(s: Seq<char>) -> Result<(Seq<char>, Seq<char>), Seq<char>> {
    match first_colon(s) {
        None => Err(no_colon_message()),
        Some(off) => {
            let host = s.take(off);
            let path = s.skip(off + 1);
            match name_check(host) {
                Some(p) => Err(problem_message(p)),
                None => if path.len() > 0 && path[0] == '/' {
                    Ok((host, path))
                } else {
                    Err(relative_path_message())
                },
            }
        },
    }
}

/// `res` is what `target_url_spec` says of `s`.
pub open spec fn target_url_matches(s: Seq<char>, res: Result<TargetUrl, String>) -> bool {
    match target_url_spec(s) {
        Ok((host, path)) => res matches Ok(t) && t.host == parsed_name(host) && t.path@ == path,
        Err(m) => res matches Err(e) && e@ == m,
    }
}

/// Finds the first colon.
fn find_colon(s: &str) -> (res: Option<usize>)
    ensures
        match res {
            Some(i) => i < s@.len() && s@[i as int] == ':' && forall|j: int|
                0 <= j < i ==> s@[j] != ':',
            None => forall|j: int| 0 <= j < s@.len() ==> s@[j] != ':',
        },
{
    let n = s.unicode_len();
    let mut i: usize = 0;
    while i < n
        invariant
            i <= n,
            n == s@.len(),
            forall|j: int| 0 <= j < i ==> s@[j] != ':',
        decreases n - i,
    {
        if s.get_char(i) == ':' {
            return Some(i);
        }
        i = i + 1;
    }
    None
}

impl TargetUrl {
    /// Reads a target of the form `host:/path`.
    pub fn parse(s: &str) -> (res: Result<TargetUrl, String>)
        ensures
            target_url_matches(s@, res),
    {
        let n = s.unicode_len();
        match find_colon(s) {
            Some(off) => {
                proof {
                    assert(exists|i: int| 0 <= i < s@.len() && s@[i] == ':');
                    let c = choose|i: int|
                        0 <= i < s@.len() && s@[i] == ':' && forall|j: int| 0 <= j < i ==> s@[j] != ':';
                    if c < off {
                        assert(s@[c] != ':');
                    }
                    if off < c {
                        assert(s@[off as int] != ':');
                    }
                    assert(first_colon(s@) == Some(off as int));
                }
                let host_str = s.substring_char(0, off);
                let path = s.substring_char(off + 1, n);
                assert(host_str@ =~= s@.take(off as int));
                assert(path@ =~= s@.skip(off + 1));
                let host = match parse_name(host_str) {
                    Ok(name) => name,
                    Err(e) => return Err(e),
                };
                if path.unicode_len() == 0 || path.get_char(0) != '/' {
                    proof {
                        reveal_strlit("Path must start with slash");
                    }
                    return Err("Path must start with slash".to_owned());
                }
                Ok(TargetUrl { host: host, path: path.to_owned() })
            },
            None => {
                Err("Target URL must be in format `host:/path`".to_owned())
            },
        }
    }
}

impl FromStr for TargetUrl {
    type Err = String;

    fn from_str(s: &str) -> (res: Result<TargetUrl, String>)
        ensures
            target_url_matches(s@, res),
    {
        TargetUrl::parse(s)
    }
}

/// A name given on the command line that is not a valid host name.
#[derive(Debug)]
pub struct BadName {
    /// The name as given.
    pub name: String,
    /// Why it was refused.
    pub reason: String,
}

/// Splits names into clusters at `--` separators; empty clusters are dropped.
/// `cur` is the cluster collected so far.
pub open spec fn multi_groups(src: Seq<Seq<char>>, cur: Seq<Seq<char>>) -> Seq<Seq<Seq<char>>>
    decreases src.len(),
{
    if src.len() == 0 {
        if cur.len() > 0 {
            seq![cur]
        } else {
            Seq::empty()
        }
    } else if src[0] == "--"@ {
        (if cur.len() > 0 {
            seq![cur]
        } else {
            Seq::empty()
        }) + multi_groups(src.drop_first(), Seq::empty())
    } else {
        multi_groups(src.drop_first(), cur.push(src[0]))
    }
}

/// The clusters the names form: with `multi`, the runs of names between
/// `--` separators; otherwise one cluster per name.
pub open spec fn cluster_groups(src: Seq<Seq<char>>, multi: bool) -> Seq<Seq<Seq<char>>> {
    if multi {
        multi_groups(src, Seq::empty())
    } else {
        Seq::new(src.len(), |i: int| seq![src[i]])
    }
}

/// The first name (separators aside, with `multi`) that is not a valid host name.
pub open spec fn first_bad_name(src: Seq<Seq<char>>, multi: bool) -> Option<Seq<char>>
    decreases src.len(),
{
    if src.len() == 0 {
        None
    } else if multi && src[0] == "--"@ {
        first_bad_name(src.drop_first(), multi)
    } else if name_check(src[0]) is Some {
        Some(src[0])
    } else {
        first_bad_name(src.drop_first(), multi)
    }
}

/// The names in `out` are the ones parsed from the texts in `groups`, cluster by cluster.
pub open spec fn names_match(out: Seq<Vec<Name>>, groups: Seq<Seq<Seq<char>>>) -> bool {
    &&& out.len() == groups.len()
    &&& forall|g: int|
        0 <= g < out.len() ==> #[trigger] out[g]@.len() == groups[g].len() && forall|j: int|
            0 <= j < groups[g].len() ==> out[g]@[j] == parsed_name(groups[g][j])
}

proof fn lemma_names_match_push(
    out: Seq<Vec<Name>>,
    groups: Seq<Seq<Seq<char>>>,
    v: Vec<Name>,
    t: Seq<Seq<char>>,
)
    requires
        names_match(out, groups),
        v@.len() == t.len(),
        forall|j: int| 0 <= j < t.len() ==> v@[j] == parsed_name(t[j]),
    ensures
        names_match(out.push(v), groups.push(t)),
{
    let o2 = out.push(v);
    let g2 = groups.push(t);
    assert forall|g: int| 0 <= g < o2.len() implies #[trigger] o2[g]@.len() == g2[g].len() && forall|j: int|
        0 <= j < g2[g].len() ==> o2[g]@[j] == parsed_name(g2[g][j]) by {
        if g < out.len() {
            assert(o2[g] == out[g]);
            assert(g2[g] == groups[g]);
            assert(out[g]@.len() == groups[g].len());
        } else {
            assert(o2[g] == v);
            assert(g2[g] == t);
        }
    }
}

/// Groups the names given on the command line into clusters: with `multi`,
/// the runs between `--` separators; otherwise one cluster per name. Fails
/// on the first name that is not a valid host name.
pub fn convert_clusters(src: &Vec<String>, multi: bool) -> (res: Result<Vec<Vec<Name>>, BadName>)
    ensures
        first_bad_name(views(src@), multi) matches Some(t) ==> (res matches Err(e) && e.name@
            == t),
        first_bad_name(views(src@), multi) is None ==> (res matches Ok(out) && names_match(
            out@,
            cluster_groups(views(src@), multi),
        )),
{
    let ghost all = views(src@);
    let n = src.len();
    let mut result: Vec<Vec<Name>> = Vec::new();
    let ghost mut result_texts: Seq<Seq<Seq<char>>> = Seq::empty();
    let mut cur: Vec<Name> = Vec::new();
    let ghost mut cur_texts: Seq<Seq<char>> = Seq::empty();
    let mut i: usize = 0;
    proof {
        assert(all.skip(0) =~= all);
    }
    while i < n
        invariant
            i <= n,
            n == src@.len(),
            all == views(src@),
            all.len() == n,
            first_bad_name(all.skip(i as int), multi) == first_bad_name(all, multi),
            names_match(result@, result_texts),
            cur@.len() == cur_texts.len(),
            forall|j: int| 0 <= j < cur_texts.len() ==> cur@[j] == parsed_name(cur_texts[j]),
            multi ==> result_texts + multi_groups(all.skip(i as int), cur_texts) == cluster_groups(
                all,
                multi,
            ),
            !multi ==> cur_texts.len() == 0 && result_texts == cluster_groups(all, multi).take(
                i as int,
            ),
        decreases n - i,
    {
        let name = src[i].as_str();
        let ghost rest = all.skip(i as int);
        proof {
            assert(rest[0] == all[i as int]);
            assert(rest.drop_first() =~= all.skip(i + 1));
            assert(all[i as int] == src@[i as int]@);
        }
        if multi && str_eq(name, "--") {
            assert(first_bad_name(rest, multi) == first_bad_name(rest.drop_first(), multi));
            if cur.len() > 0 {
                proof {
                    lemma_names_match_push(result@, result_texts, cur, cur_texts);
                    assert(seq![cur_texts] + multi_groups(rest.drop_first(), Seq::empty())
                        == multi_groups(rest, cur_texts));
                    assert(result_texts.push(cur_texts) + multi_groups(rest.drop_first(), Seq::empty())
                        =~= result_texts + (seq![cur_texts] + multi_groups(rest.drop_first(), Seq::empty())));
                    result_texts = result_texts.push(cur_texts);
                }
                let full = cur;
                cur = Vec::new();
                result.push(full);
                proof {
                    cur_texts = Seq::empty();
                }
            } else {
                proof {
                    assert(cur_texts =~= Seq::<Seq<char>>::empty());
                    assert(Seq::<Seq<Seq<char>>>::empty() + multi_groups(rest.drop_first(), Seq::empty())
                        =~= multi_groups(rest.drop_first(), Seq::empty()));
                }
            }
        } else {
            match parse_name(name) {
                Ok(parsed) => {
                    assert(first_bad_name(rest, multi) == first_bad_name(rest.drop_first(), multi));
                    if multi {
                        proof {
                            assert(rest[0] != "--"@);
                            assert(multi_groups(rest, cur_texts) == multi_groups(
                                rest.drop_first(),
                                cur_texts.push(all[i as int]),
                            ));
                        }
                        cur.push(parsed);
                        proof {
                            cur_texts = cur_texts.push(all[i as int]);
                        }
                    } else {
                        let mut one: Vec<Name> = Vec::new();
                        one.push(parsed);
                        proof {
                            lemma_names_match_push(result@, result_texts, one, seq![all[i as int]]);
                            result_texts = result_texts.push(seq![all[i as int]]);
                            assert(result_texts =~= cluster_groups(all, multi).take(i + 1));
                        }
                        result.push(one);
                    }
                },
                Err(reason) => {
                    assert(first_bad_name(rest, multi) == Some(all[i as int]));
                    return Err(BadName { name: name.to_owned(), reason: reason });
                },
            }
        }
        i = i + 1;
    }
    proof {
        assert(all.skip(n as int) =~= Seq::<Seq<char>>::empty());
        if !multi {
            assert(result_texts =~= cluster_groups(all, multi));
        }
    }
    if cur.len() > 0 {
        proof {
            assert(result_texts + seq![cur_texts] == cluster_groups(all, multi));
            lemma_names_match_push(result@, result_texts, cur, cur_texts);
            result_texts = result_texts.push(cur_texts);
        }
        result.push(cur);
    } else {
        proof {
            assert(result_texts + Seq::<Seq<Seq<char>>>::empty() == cluster_groups(all, multi));
            assert(result_texts + Seq::<Seq<Seq<char>>>::empty() =~= result_texts);
        }
    }
    Ok(result)
}

} // verus!
