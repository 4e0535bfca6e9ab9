//! The texts that report how an upload went.
use vstd::prelude::*;

use crate::bookkeeping::Bookkeeping;
use crate::key_set::{pair_keys, pairs_map, views};

verus! {

/// The character of the decimal digit `d`.
pub open spec fn digit_char(d: nat) -> char {
    (48 + d) as char
}

/// The decimal digits of `n`, with no leading zero.
pub open spec fn decimal(n: nat) -> Seq<char>
    decreases n,
{
    if n < 10 {
        seq![digit_char(n)]
    } else {
        decimal(n / 10) + seq![digit_char(n % 10)]
    }
}

/// The text of a decimal digit.
fn digit_str(d: u64) -> (res: &'static str)
    requires
        d < 10,
    ensures
        res@ == seq![digit_char(d as nat)],
{
    match d {
        0 => {
            proof {
                reveal_strlit("0");
            }
            "0"
        },
        1 => {
            proof {
                reveal_strlit("1");
            }
            "1"
        },
        2 => {
            proof {
                reveal_strlit("2");
            }
            "2"
        },
        3 => {
            proof {
                reveal_strlit("3");
            }
            "3"
        },
        4 => {
            proof {
                reveal_strlit("4");
            }
            "4"
        },
        5 => {
            proof {
                reveal_strlit("5");
            }
            "5"
        },
        6 => {
            proof {
                reveal_strlit("6");
            }
            "6"
        },
        7 => {
            proof {
                reveal_strlit("7");
            }
            "7"
        },
        8 => {
            proof {
                reveal_strlit("8");
            }
            "8"
        },
        _ => {
            proof {
                reveal_strlit("9");
            }
            "9"
        },
    }
}

/// `n` written in decimal, as `{}` writes it.
pub fn decimal_text(n: u64) -> (res: String)
    ensures
        res@ == decimal(n as nat),
    decreases n,
{
    if n < 10 {
        String::from_str(digit_str(n))
    } else {
        let mut s = decimal_text(n / 10);
        s.append(digit_str(n % 10));
        s
    }
}

/// The texts of `s`, separated by a comma and a space.
pub open spec fn joined(s: Seq<Seq<char>>) -> Seq<char>
    decreases s.len(),
{
    if s.len() == 0 {
        Seq::empty()
    } else if s.len() == 1 {
        s[0]
    } else {
        joined(s.drop_last()) + ", "@ + s.last()
    }
}

/// Writes the items one after the other, separated by a comma and a space.
pub fn fmt_iter(items: &Vec<String>) -> (res: String)
    ensures
        res@ == joined(views(items@)),
{
    proof {
        reveal_strlit(", ");
    }
    let mut out = String::new();
    let mut i: usize = 0;
    while i < items.len()
        invariant
            i <= items.len(),
            out@ == joined(views(items@.take(i as int))),
        decreases items.len() - i,
    {
        assert(views(items@.take(i + 1)).drop_last() =~= views(items@.take(i as int)));
        if i > 0 {
            out.append(", ");
        }
        out.append(items[i].as_str());
        i = i + 1;
        proof {
            if i == 1 {
                assert(out@ =~= views(items@.take(1))[0]);
            } else {
                assert(out@ =~= joined(views(items@.take(i - 1))) + ", "@ + items@[i - 1]@);
            }
        }
    }
    assert(items@.take(i as int) =~= items@);
    out
}

/// A key and its text, as `{}: {}` writes them.
pub open spec fn pair_text(p: (Seq<char>, Seq<char>)) -> Seq<char> {
    p.0 + ": "@ + p.1
}

/// The texts of pairs of texts.
pub open spec fn pair_views(s: Seq<(String, String)>) -> Seq<(Seq<char>, Seq<char>)> {
    s.map_values(|p: (String, String)| (p.0@, p.1@))
}

/// `s` lists the texts of `set`, each once, in some order.
pub open spec fn lists_set(s: Seq<Seq<char>>, set: Set<Seq<char>>) -> bool {
    s.no_duplicates() && s.to_set() == set
}

/// The map that pairs of texts make.
pub open spec fn map_of(s: Seq<(Seq<char>, Seq<char>)>) -> Map<Seq<char>, Seq<char>>
    decreases s.len(),
{
    if s.len() == 0 {
        Map::empty()
    } else {
        map_of(s.drop_last()).insert(s.last().0, s.last().1)
    }
}

/// `s` lists the pairs of `m`, each key once, in some order.
pub open spec fn lists_map(s: Seq<(Seq<char>, Seq<char>)>, m: Map<Seq<char>, Seq<char>>) -> bool {
    s.map_values(|p: (Seq<char>, Seq<char>)| p.0).no_duplicates() && map_of(s) == m
}

/// The texts of pairs written as `key: text`.
pub open spec fn pair_texts(s: Seq<(Seq<char>, Seq<char>)>) -> Seq<Seq<char>> {
    s.map_values(|p: (Seq<char>, Seq<char>)| pair_text(p))
}

/// How an upload went, as it is reported: the hosts that have the image
/// (their names, or their number when more than three), how many were
/// known when more, then the addresses that rejected it and the hosts that
/// aborted the download, with the reasons.
pub open spec fn downloaded(
    done: nat,
    names: Seq<Seq<char>>,
    discovered: nat,
    rejected: Seq<(Seq<char>, Seq<char>)>,
    any_aborted: bool,
    aborted: Seq<(Seq<char>, Seq<char>)>,
) -> Seq<char> {
    "fetched from "@ + (if done > 3 {
        decimal(done) + " hosts"@
    } else {
        joined(names)
    }) + (if discovered > done {
        " (out of "@ + decimal(discovered) + " hosts)"@
    } else {
        Seq::empty()
    }) + (if rejected.len() > 0 {
        ", rejected by"@ + joined(pair_texts(rejected))
    } else {
        Seq::empty()
    }) + (if any_aborted {
        ", aborted by"@ + joined(pair_texts(aborted))
    } else {
        Seq::empty()
    })
}

/// Stored pairs list the map they make.
proof fn lemma_pairs_listed(s: Seq<(String, String)>)
    requires
        pair_keys(s).no_duplicates(),
    ensures
        lists_map(pair_views(s), pairs_map(s)),
    decreases s.len(),
{
    let t = pair_views(s);
    assert(t.map_values(|p: (Seq<char>, Seq<char>)| p.0) =~= pair_keys(s));
    if s.len() > 0 {
        let d = s.drop_last();
        assert(pair_keys(d).no_duplicates()) by {
            assert forall|a: int, b: int|
                0 <= a < pair_keys(d).len() && 0 <= b < pair_keys(d).len() && a != b implies pair_keys(
                d,
            )[a] != pair_keys(d)[b] by {
                assert(pair_keys(d)[a] == pair_keys(s)[a] && pair_keys(d)[b] == pair_keys(s)[b]);
            }
        }
        lemma_pairs_listed(d);
        assert(t.drop_last() =~= pair_views(d));
    } else {
        assert(map_of(t) =~= pairs_map(s));
    }
}

/// The pairs written as `key: text`.
fn pair_strings(pairs: &Vec<(String, String)>) -> (res: Vec<String>)
    ensures
        views(res@) == pair_texts(pair_views(pairs@)),
{
    proof {
        reveal_strlit(": ");
    }
    let mut out: Vec<String> = Vec::new();
    let mut i: usize = 0;
    while i < pairs.len()
        invariant
            i <= pairs.len(),
            views(out@) == pair_texts(pair_views(pairs@.take(i as int))),
        decreases pairs.len() - i,
    {
        let mut s = pairs[i].0.clone();
        s.append(": ");
        s.append(pairs[i].1.as_str());
        let ghost before = out@;
        let ghost t = s@;
        out.push(s);
        proof {
            let p = (pairs@[i as int].0@, pairs@[i as int].1@);
            assert(t =~= pair_text(p));
            assert(pair_views(pairs@.take(i + 1)) =~= pair_views(pairs@.take(i as int)).push(p));
            assert(pair_texts(pair_views(pairs@.take(i + 1))) =~= pair_texts(
                pair_views(pairs@.take(i as int)),
            ).push(pair_text(p)));
            assert(views(out@) =~= views(before).push(t));
        }
        i = i + 1;
    }
    assert(pairs@.take(i as int) =~= pairs@);
    out
}

impl Bookkeeping {
    /// How the upload went, as `downloaded` reports it; the hosts and pairs
    /// come in the order they were recorded.
    pub fn fmt_downloaded(&self) -> (res: String)
        requires
            self.wf(),
        ensures
            exists|
                names: Seq<Seq<char>>,
                rejected: Seq<(Seq<char>, Seq<char>)>,
                aborted: Seq<(Seq<char>, Seq<char>)>,
            |
                #![trigger lists_set(names, self@.done_hostnames), lists_map(rejected, self@.rejected_ips), lists_map(aborted, self@.aborted_hostnames)]
                lists_set(names, self@.done_hostnames) && lists_map(rejected, self@.rejected_ips)
                    && lists_map(aborted, self@.aborted_hostnames) && res@ == downloaded(
                    self@.done_ids.len(),
                    names,
                    self@.discovered_ids.len(),
                    rejected,
                    self@.aborted_ids.len() > 0,
                    aborted,
                ),
    {
        proof {
            reveal_strlit("fetched from ");
            reveal_strlit(" hosts");
            reveal_strlit(" (out of ");
            reveal_strlit(" hosts)");
            reveal_strlit(", rejected by");
            reveal_strlit(", aborted by");
        }
        let mut out = String::from_str("fetched from ");
        let done = self.done_ids().len();
        let names = self.done_hostnames().items();
        if done > 3 {
            out.append(decimal_text(done as u64).as_str());
            out.append(" hosts");
        } else {
            out.append(fmt_iter(names).as_str());
        }
        let discovered = self.discovered_ids().len();
        if discovered > done {
            out.append(" (out of ");
            out.append(decimal_text(discovered as u64).as_str());
            out.append(" hosts)");
        }
        let rejected = self.rejected_ips().items();
        proof {
            lemma_pairs_listed(rejected@);
        }
        if rejected.len() > 0 {
            out.append(", rejected by");
            out.append(fmt_iter(&pair_strings(rejected)).as_str());
        }
        let aborted = self.aborted_hostnames().items();
        proof {
            lemma_pairs_listed(aborted@);
        }
        if !self.aborted_ids().is_empty() {
            out.append(", aborted by");
            out.append(fmt_iter(&pair_strings(aborted)).as_str());
        }
        proof {
            let n = views(names@);
            let r = pair_views(rejected@);
            let a = pair_views(aborted@);
            assert(lists_set(n, self@.done_hostnames));
            assert(out@ =~= downloaded(
                self@.done_ids.len(),
                n,
                self@.discovered_ids.len(),
                r,
                self@.aborted_ids.len() > 0,
                a,
            ));
        }
        out
    }
}

/// `n` written with at least three digits, zeros in front.
pub open spec fn padded3(n: nat) -> Seq<char> {
    if n < 10 {
        "00"@ + decimal(n)
    } else if n < 100 {
        "0"@ + decimal(n)
    } else {
        decimal(n)
    }
}

/// How long an upload took, as it is reported: under a second in
/// thousandths, under ten seconds in tenths, otherwise in whole seconds.
pub open spec fn took(secs: nat, nanos: nat) -> Seq<char> {
    if secs < 1 {
        " in 0."@ + padded3(nanos / 1_000_000) + "s"@
    } else if secs < 10 {
        " in "@ + decimal(secs) + "."@ + decimal(nanos / 100_000_000) + "s"@
    } else {
        " in "@ + decimal(secs) + "s"@
    }
}

/// The report of a successful upload to the cluster of `names` (a name, or
/// the number of names when there are several), with how it went and how
/// long it took.
pub open spec fn upload_ok(names: Seq<Seq<char>>, downloaded: Seq<char>, secs: nat, nanos: nat) -> Seq<
    char,
> {
    "Upload to "@ + (if names.len() == 1 {
        names[0]
    } else {
        decimal(names.len()) + " hosts"@
    }) + ": "@ + downloaded + took(secs, nanos)
}

/// The report of a successful upload; `secs` and `nanos` are the whole
/// seconds and the nanoseconds past them that it took.
pub fn upload_ok_text(names: &Vec<String>, downloaded: &str, secs: u64, nanos: u32) -> (res: String)
    ensures
        res@ == upload_ok(views(names@), downloaded@, secs as nat, nanos as nat),
{
    proof {
        reveal_strlit("Upload to ");
        reveal_strlit(" hosts");
        reveal_strlit(": ");
        reveal_strlit(" in 0.");
        reveal_strlit(" in ");
        reveal_strlit(".");
        reveal_strlit("s");
        reveal_strlit("00");
        reveal_strlit("0");
    }
    let mut out = String::from_str("Upload to ");
    if names.len() == 1 {
        out.append(names[0].as_str());
    } else {
        out.append(decimal_text(names.len() as u64).as_str());
        out.append(" hosts");
    }
    out.append(": ");
    out.append(downloaded);
    if secs < 1 {
        let ms = nanos / 1_000_000;
        out.append(" in 0.");
        if ms < 10 {
            out.append("00");
        } else if ms < 100 {
            out.append("0");
        }
        out.append(decimal_text(ms as u64).as_str());
        out.append("s");
    } else if secs < 10 {
        out.append(" in ");
        out.append(decimal_text(secs).as_str());
        out.append(".");
        out.append(decimal_text((nanos / 100_000_000) as u64).as_str());
        out.append("s");
    } else {
        out.append(" in ");
        out.append(decimal_text(secs).as_str());
        out.append("s");
    }
    proof {
        assert(out@ =~= upload_ok(views(names@), downloaded@, secs as nat, nanos as nat));
    }
    out
}

} // verus!
