//! Lowercase hexadecimal rendering of byte strings.
use vstd::prelude::*;

verus! {

/// The lowercase hexadecimal digit for a value in `0..16`.
pub open spec fn hex_digit(v: int) -> char {
    if v < 10 {
        (v + 48) as char
    } else {
        (v + 87) as char
    }
}

/// Lowercase hex rendering: two digits per byte, high nibble first.
pub open spec fn lower_hex(bytes: Seq<u8>) -> Seq<char>
    decreases bytes.len(),
{
    if bytes.len() == 0 {
        Seq::empty()
    } else {
        seq![hex_digit(bytes[0] as int / 16), hex_digit(bytes[0] as int % 16)] + lower_hex(bytes.drop_first())
    }
}

/// Renders bytes as a lowercase hex string.
pub fn to_hex(bytes: &[u8]) -> (res: String)
    ensures
        res@ == lower_hex(bytes@),
{
    let digits = "0123456789abcdef";
    proof {
        reveal_strlit("0123456789abcdef");
    }
    assert(forall|v: int| 0 <= v < 16 ==> #[trigger] digits@[v] == hex_digit(v));
    let mut res = String::new();
    let n = bytes.len();
    let mut i: usize = 0;
    assert(bytes@.skip(0) =~= bytes@);
    while i < n
        invariant
            i <= n,
            n == bytes@.len(),
            digits@.len() == 16,
            forall|v: int| 0 <= v < 16 ==> #[trigger] digits@[v] == hex_digit(v),
            lower_hex(bytes@) =~= res@ + lower_hex(bytes@.skip(i as int)),
        decreases n - i,
    {
        let b = bytes[i];
        let hi = (b / 16) as usize;
        let lo = (b % 16) as usize;
        let hs = digits.substring_char(hi, hi + 1);
        let ls = digits.substring_char(lo, lo + 1);
        proof {
            let rest = bytes@.skip(i as int);
            assert(rest.drop_first() =~= bytes@.skip(i + 1));
            assert(rest[0] == b);
        }
        res.append(hs);
        res.append(ls);
        i = i + 1;
    }
    assert(bytes@.skip(n as int) =~= Seq::<u8>::empty());
    res
}

} // verus!
