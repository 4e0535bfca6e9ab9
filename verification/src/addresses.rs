//! The addresses a client connects to for a host name it resolved.
use vstd::prelude::*;
use abstract_ns::Address;

use crate::key_set::views;

verus! {

#[verifier::external_type_specification]
#[verifier::external_body]
pub struct ExAddress(Address);

/// The addresses of the highest priority of a resolved name, in the order
/// they were given, each with its weight and its text (`ip:port`).
pub uninterp spec fn top_addresses(addr: Address) -> Seq<(u64, Seq<char>)>;

/// The texts of weighted addresses.
pub open spec fn texts(s: Seq<(u64, Seq<char>)>) -> Seq<Seq<char>> {
    s.map_values(|p: (u64, Seq<char>)| p.1)
}

/// The sum of the weights of weighted addresses.
pub open spec fn weight_sum(s: Seq<(u64, Seq<char>)>) -> int
    decreases s.len(),
{
    if s.len() == 0 {
        0
    } else {
        weight_sum(s.drop_last()) + s.last().0
    }
}

/// No address of `s` carries a weight.
pub open spec fn unweighted(s: Seq<(u64, Seq<char>)>) -> bool {
    forall|i: int| 0 <= i < s.len() ==> (#[trigger] s[i]).0 == 0
}

/// Addresses that carry no weight weigh nothing together.
pub proof fn lemma_unweighted_sum(s: Seq<(u64, Seq<char>)>)
    requires
        unweighted(s),
    ensures
        weight_sum(s) == 0,
    decreases s.len(),
{
    if s.len() > 0 {
        assert(unweighted(s.drop_last())) by {
            assert forall|i: int| 0 <= i < s.drop_last().len() implies (#[trigger] s.drop_last()[i]).0
                == 0 by {
                assert(s.drop_last()[i] == s[i]);
            }
        }
        lemma_unweighted_sum(s.drop_last());
        assert(s.last() == s[s.len() - 1]);
    }
}

/// Calls `Address::at(0)`, rebuilds its addresses with `Address`'s
/// `FromIterator` (which gives each the weight 0), and compares the two
/// with `WeightedSet`'s `PartialEq`, which compares the (weight, address)
/// pairs regardless of their order: by the crate's source, true exactly
/// when no address of the highest priority carries a weight.
#[verifier::external_body]
fn top_weights_zero(addr: &Address) -> (res: bool)
    ensures
        res == unweighted(top_addresses(*addr)),
{
    let plain: Address = addr.at(0).addresses().collect();
    addr.at(0) == plain.at(0)
}

/// Whether no address of the highest priority carries a weight, as with
/// the addresses a name resolves to or a list gives; the weights then fit
/// the sum that picking an address makes.
pub fn weights_fit(addr: &Address) -> (res: bool)
    ensures
        res == unweighted(top_addresses(*addr)),
        res ==> weight_sum(top_addresses(*addr)) <= u64::MAX,
{
    let res = top_weights_zero(addr);
    proof {
        if res {
            lemma_unweighted_sum(top_addresses(*addr));
        }
    }
    res
}

/// Calls `Address::at(0)` and `WeightedSet::addresses`, rendering each
/// `SocketAddr` with `to_string`: the addresses of the highest priority, in
/// their order.
#[verifier::external_body]
pub(crate) fn top_address_texts(addr: &Address) -> (res: Vec<String>)
    ensures
        views(res@) == texts(top_addresses(*addr)),
{
    addr.at(0).addresses().map(|a| a.to_string()).collect()
}

/// Calls `Address::pick_one` and renders the address with `to_string`: one
/// address of the highest priority, drawn at random by the weights, or `None`
/// when there is none. Which one comes out is left open. The crate sums the
/// weights in `u64`, so the sum must fit.
#[verifier::external_body]
pub(crate) fn pick_one(addr: &Address) -> (res: Option<String>)
    requires
        weight_sum(top_addresses(*addr)) <= u64::MAX,
    ensures
        res is None <==> top_addresses(*addr).len() == 0,
        res matches Some(a) ==> texts(top_addresses(*addr)).contains(a@),
{
    addr.pick_one().map(|a| a.to_string())
}

/// No two neighbours of `s` are the same.
pub open spec fn no_repeats(s: Seq<Seq<char>>) -> bool {
    forall|i: int| 0 <= i < s.len() - 1 ==> #[trigger] s[i] != s[i + 1]
}

/// Drops each string that repeats the one before it, as `Vec::dedup` does.
fn dedup_texts(v: Vec<String>) -> (res: Vec<String>)
    ensures
        no_repeats(views(res@)),
        res.len() <= v.len(),
        v.len() > 0 ==> res.len() > 0,
        forall|i: int| 0 <= i < res.len() ==> views(v@).contains(#[trigger] res@[i]@),
{
    let mut out: Vec<String> = Vec::new();
    let mut i: usize = 0;
    while i < v.len()
        invariant
            i <= v.len(),
            out.len() <= i,
            i > 0 ==> out.len() > 0,
            i > 0 ==> out@[out.len() - 1]@ == v@[i - 1]@,
            no_repeats(views(out@)),
            forall|k: int| 0 <= k < out.len() ==> views(v@).contains(#[trigger] out@[k]@),
        decreases v.len() - i,
    {
        let keep = if out.len() == 0 {
            true
        } else {
            let last = out.len() - 1;
            !(out[last] == v[i])
        };
        if keep {
            let ghost before = out@;
            out.push(v[i].clone());
            proof {
                assert(views(v@)[i as int] == v@[i as int]@);
                assert forall|k: int| 0 <= k < out.len() - 1 implies #[trigger] views(
                    out@,
                )[k] != views(out@)[k + 1] by {
                    if k < out.len() - 2 {
                        assert(views(before)[k] != views(before)[k + 1]);
                    }
                }
            }
        }
        i = i + 1;
    }
    out
}

/// What picking the addresses of `addr` can give: an error when there are
/// none; all of them, in order, when there are up to three; otherwise one
/// to three of them, no two neighbours the same.
pub open spec fn hosts_picked(addr: Address, res: Result<Vec<String>, ()>) -> bool {
    let top = top_addresses(addr);
    &&& (res is Err <==> top.len() == 0)
    &&& 1 <= top.len() <= 3 ==> (res matches Ok(v) && views(v@) == texts(top))
    &&& top.len() > 3 ==> (res matches Ok(v) && 1 <= v.len() <= 3 && no_repeats(views(v@))
        && forall|i: int| 0 <= i < v.len() ==> texts(top).contains(#[trigger] v@[i]@))
}

/// Picks the addresses to upload to for a resolved host name: none is an
/// error; up to three are all taken, in order; of more, three random picks
/// are made and a pick that repeats the one before it is dropped.
pub fn pick_hosts(addr: &Address) -> (res: Result<Vec<String>, ()>)
    requires
        weight_sum(top_addresses(*addr)) <= u64::MAX,
    ensures
        hosts_picked(*addr, res),
{
    let all = top_address_texts(addr);
    let num = all.len();
    proof {
        assert(views(all@).len() == all@.len());
    }
    if num == 0 {
        Err(())
    } else if num > 3 {
        let mut picks: Vec<String> = Vec::new();
        let mut k: usize = 0;
        while k < 3
            invariant
                k <= 3,
                picks.len() == k,
                weight_sum(top_addresses(*addr)) <= u64::MAX,
                top_addresses(*addr).len() > 3,
                forall|j: int| 0 <= j < picks.len() ==> texts(top_addresses(*addr)).contains(
                    #[trigger] picks@[j]@,
                ),
            decreases 3 - k,
        {
            match pick_one(addr) {
                Some(a) => picks.push(a),
                None => {},
            }
            k = k + 1;
        }
        let res = dedup_texts(picks);
        proof {
            assert forall|i: int| 0 <= i < res.len() implies texts(top_addresses(*addr)).contains(
                #[trigger] res@[i]@,
            ) by {
                let j = choose|j: int| 0 <= j < picks.len() && views(picks@)[j] == res@[i]@;
                assert(texts(top_addresses(*addr)).contains(picks@[j]@));
            }
        }
        Ok(res)
    } else {
        Ok(all)
    }
}

/// Picks the addresses as `pick_hosts` does when no address of the highest
/// priority carries a weight (see `weights_fit`); `None` when one does.
pub fn pick_unweighted_hosts(addr: &Address) -> (res: Option<Result<Vec<String>, ()>>)
    ensures
        res is Some <==> unweighted(top_addresses(*addr)),
        res matches Some(r) ==> hosts_picked(*addr, r),
{
    if weights_fit(addr) {
        Some(pick_hosts(addr))
    } else {
        None
    }
}

} // verus!
