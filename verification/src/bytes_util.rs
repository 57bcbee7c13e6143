//! Byte-sequence helpers shared by the wire format and the identifier text:
//! first-occurrence search and decimal reading and writing.

use vstd::prelude::*;

verus! {

/// Index of the first occurrence of `b` in `s`, or `-1` when absent.
pub open spec fn find(s: Seq<u8>, b: u8) -> int
    decreases s.len(),
{
    if s.len() == 0 {
        -1
    } else if s[0] == b {
        0
    } else if find(s.drop_first(), b) == -1 {
        -1
    } else {
        find(s.drop_first(), b) + 1
    }
}

/// What `find` means: `-1` exactly when absent, else the least index holding `b`.
pub proof fn lemma_find(s: Seq<u8>, b: u8)
    ensures
        find(s, b) == -1 ==> forall|k: int| 0 <= k < s.len() ==> s[k] != b,
        find(s, b) != -1 ==> 0 <= find(s, b) < s.len() && s[find(s, b)] == b && (forall|k: int|
            0 <= k < find(s, b) ==> s[k] != b),
    decreases s.len(),
{
    if s.len() > 0 && s[0] != b {
        lemma_find(s.drop_first(), b);
        assert forall|k: int| 0 <= k < s.len() && find(s, b) == -1 implies s[k] != b by {
            if k > 0 {
                assert(s.drop_first()[k - 1] == s[k]);
            }
        }
        if find(s, b) != -1 {
            assert forall|k: int| 0 <= k < find(s, b) implies s[k] != b by {
                if k > 0 {
                    assert(s.drop_first()[k - 1] == s[k]);
                }
            }
        }
    }
}

/// A position that holds `b` with nothing equal before it is the one `find` returns.
pub proof fn lemma_find_unique(s: Seq<u8>, b: u8, i: int)
    requires
        0 <= i < s.len(),
        s[i] == b,
        forall|k: int| 0 <= k < i ==> s[k] != b,
    ensures
        find(s, b) == i,
{
    lemma_find(s, b);
    if find(s, b) == -1 {
        assert(s[i] != b);
    } else {
        if find(s, b) < i {
            assert(s[find(s, b)] != b);
        }
        if find(s, b) > i {
            assert(s[i] != b);
        }
    }
}

/// First occurrence of `b` in `v`, scanning left to right.
pub fn find_byte(v: &[u8], b: u8) -> (r: Option<usize>)
    ensures
        match r {
            Some(i) => find(v@, b) == i as int,
            None => find(v@, b) == -1,
        },
{
    let mut i: usize = 0;
    while i < v.len()
        invariant
            0 <= i <= v@.len(),
            forall|k: int| 0 <= k < i ==> v@[k] != b,
        decreases v@.len() - i,
    {
        if v[i] == b {
            proof {
                lemma_find_unique(v@, b, i as int);
            }
            return Some(i);
        }
        i = i + 1;
    }
    proof {
        lemma_find(v@, b);
        if find(v@, b) != -1 {
            assert(v@[find(v@, b)] == b);
        }
    }
    None
}

/// A decimal digit byte.
pub open spec fn is_digit(b: u8) -> bool {
    48 <= b <= 57
}

/// Every byte of `s` is a decimal digit.
pub open spec fn all_digits(s: Seq<u8>) -> bool {
    forall|i: int| 0 <= i < s.len() ==> is_digit(#[trigger] s[i])
}

/// The number a digit sequence denotes, read most significant first.
pub open spec fn dec_val(s: Seq<u8>) -> int
    decreases s.len(),
{
    if s.len() == 0 {
        0
    } else {
        dec_val(s.drop_last()) * 10 + (s.last() - 48)
    }
}

/// The canonical digit text of `n`: no leading zero except for zero itself.
pub open spec fn dec_seq(n: nat) -> Seq<u8>
    decreases n,
{
    if n < 10 {
        seq![(n + 48) as u8]
    } else {
        dec_seq(n / 10).push((n % 10 + 48) as u8)
    }
}

/// The canonical digit text reads back as the number it was made from.
pub proof fn lemma_dec_seq_val(n: nat)
    ensures
        all_digits(dec_seq(n)),
        dec_seq(n).len() >= 1,
        dec_val(dec_seq(n)) == n,
    decreases n,
{
    if n < 10 {
        let s = dec_seq(n);
        assert(s =~= seq![(n + 48) as u8]);
        assert(s.drop_last() =~= Seq::<u8>::empty());
        assert(s.last() == (n + 48) as u8);
        assert(dec_val(s) == dec_val(s.drop_last()) * 10 + (s.last() - 48));
        assert(dec_val(s.drop_last()) == 0);
    } else {
        lemma_dec_seq_val(n / 10);
        let s = dec_seq(n / 10).push((n % 10 + 48) as u8);
        assert(s.drop_last() =~= dec_seq(n / 10));
        assert(dec_val(s) == (n / 10) * 10 + n % 10);
        assert((n / 10) * 10 + n % 10 == n) by (nonlinear_arith);
    }
}

/// Digit values never shrink as a digit text grows to the right.
pub proof fn lemma_dec_val_prefix(s: Seq<u8>, j: int)
    requires
        all_digits(s),
        0 <= j <= s.len(),
    ensures
        dec_val(s) >= dec_val(s.take(j)),
        dec_val(s.take(j)) >= 0,
    decreases s.len() - j,
{
    if j == s.len() {
        assert(s.take(j) =~= s);
        lemma_dec_val_nonneg(s);
    } else {
        lemma_dec_val_prefix(s, j + 1);
        lemma_dec_val_nonneg(s.take(j));
        let t = s.take(j + 1);
        assert(t.drop_last() =~= s.take(j));
        assert(dec_val(t) == dec_val(s.take(j)) * 10 + (s[j] - 48));
        assert(dec_val(s.take(j)) * 10 >= dec_val(s.take(j))) by (nonlinear_arith)
            requires dec_val(s.take(j)) >= 0;
    }
}

/// A digit text denotes a nonnegative number.
pub proof fn lemma_dec_val_nonneg(s: Seq<u8>)
    requires
        all_digits(s),
    ensures
        dec_val(s) >= 0,
    decreases s.len(),
{
    if s.len() > 0 {
        assert(all_digits(s.drop_last()));
        lemma_dec_val_nonneg(s.drop_last());
        assert(dec_val(s.drop_last()) * 10 >= 0) by (nonlinear_arith)
            requires dec_val(s.drop_last()) >= 0;
    }
}

/// Reads `v` as a decimal number. Fails exactly when `v` is empty, holds a
/// byte that is not a digit, or denotes a number above `u128::MAX`.
pub fn parse_u128(v: &[u8]) -> (r: Option<u128>)
    ensures
        match r {
            Some(n) => v@.len() > 0 && all_digits(v@) && dec_val(v@) == n as int,
            None => v@.len() == 0 || !all_digits(v@) || dec_val(v@) > u128::MAX as int,
        },
{
    if v.len() == 0 {
        return None;
    }
    let mut acc: u128 = 0;
    let mut i: usize = 0;
    while i < v.len()
        invariant
            0 <= i <= v@.len(),
            all_digits(v@.take(i as int)),
            acc as int == dec_val(v@.take(i as int)),
        decreases v@.len() - i,
    {
        let b = v[i];
        if b < 48 || b > 57 {
            return None;
        }
        let d = (b - 48) as u128;
        if acc > u128::MAX / 10 || (acc == u128::MAX / 10 && d > u128::MAX % 10) {
            proof {
                let t = v@.take(i as int + 1);
                assert(t.drop_last() =~= v@.take(i as int));
                assert(all_digits(t));
                assert(dec_val(t) == acc * 10 + d);
                assert(acc * 10 + d > u128::MAX) by (nonlinear_arith)
                    requires
                        acc > u128::MAX / 10 || (acc == u128::MAX / 10 && d > u128::MAX % 10),
                        acc >= 0,
                        d >= 0;
                if all_digits(v@) {
                    lemma_dec_val_prefix(v@, i as int + 1);
                }
            }
            return None;
        }
        proof {
            let t = v@.take(i as int + 1);
            assert(t.drop_last() =~= v@.take(i as int));
            assert(dec_val(t) == acc * 10 + d);
            assert(acc * 10 + d <= u128::MAX) by (nonlinear_arith)
                requires
                    acc <= u128::MAX / 10,
                    0 <= d <= 9,
                    !(acc == u128::MAX / 10 && d > u128::MAX % 10);
        }
        acc = acc * 10 + d;
        i = i + 1;
    }
    proof {
        assert(v@.take(i as int) =~= v@);
    }
    Some(acc)
}

/// Reads `v` as a decimal number that must fit in 32 bits. Fails exactly
/// when `v` is empty, holds a byte that is not a digit, or denotes a number
/// above `u32::MAX`.
pub fn parse_u32(v: &[u8]) -> (r: Option<u32>)
    ensures
        match r {
            Some(n) => v@.len() > 0 && all_digits(v@) && dec_val(v@) == n as int,
            None => v@.len() == 0 || !all_digits(v@) || dec_val(v@) > u32::MAX as int,
        },
{
    match parse_u128(v) {
        Some(n) => {
            if n > u32::MAX as u128 {
                None
            } else {
                Some(n as u32)
            }
        },
        None => None,
    }
}

/// Writes `n` as decimal digit text.
pub fn u128_to_dec(n: u128) -> (r: Vec<u8>)
    ensures
        r@ == dec_seq(n as nat),
    decreases n,
{
    if n < 10 {
        let mut v: Vec<u8> = Vec::new();
        v.push((n as u8) + 48);
        proof {
            assert(v@ =~= dec_seq(n as nat));
        }
        v
    } else {
        proof {
            assert(n / 10 < n) by (nonlinear_arith)
                requires n >= 10;
        }
        let mut v = u128_to_dec(n / 10);
        v.push(((n % 10) as u8) + 48);
        proof {
            assert(v@ =~= dec_seq(n as nat));
        }
        v
    }
}

/// Writes a 32-bit number as decimal digit text.
pub fn u32_to_dec(n: u32) -> (r: Vec<u8>)
    ensures
        r@ == dec_seq(n as nat),
{
    u128_to_dec(n as u128)
}

/// Appends all of `src` to `dst`.
pub fn push_all(dst: &mut Vec<u8>, src: &[u8])
    ensures
        final(dst)@ == old(dst)@ + src@,
{
    dst.extend_from_slice(src);
}

} // verus!
