//! Decimal rendering of counters and the identity strings of candidates.
//!
//! An identity is the discovery index, zero-padded to at least four digits,
//! then the candidate's length and depth, the three separated by dashes. Two
//! distinct discovery indices always give two distinct identities; that fact
//! is what makes identities unique within one search tree.

use vstd::prelude::*;

verus! {

/// The digit byte for `n`.
pub open spec fn dec_digit(n: nat) -> u8
    recommends
        n < 10,
{
    (0x30 + n) as u8
}

/// The decimal rendering of `n`, most significant digit first.
pub open spec fn dec_repr(n: nat) -> Seq<u8>
    decreases n,
{
    if n < 10 {
        seq![dec_digit(n)]
    } else {
        dec_repr(n / 10).push(dec_digit(n % 10))
    }
}

/// `k` zero digits.
pub open spec fn zeros(k: nat) -> Seq<u8> {
    Seq::new(k, |i: int| 0x30u8)
}

/// The decimal rendering of `n`, zero-padded on the left to at least four
/// digits.
pub open spec fn padded4(n: nat) -> Seq<u8> {
    if dec_repr(n).len() >= 4 {
        dec_repr(n)
    } else {
        zeros((4 - dec_repr(n).len()) as nat) + dec_repr(n)
    }
}

/// The identity string of the candidate with discovery index `num`, length
/// `length` and depth `depth`.
pub open spec fn identity_repr(num: nat, length: nat, depth: nat) -> Seq<u8> {
    padded4(num) + seq![0x2du8] + dec_repr(length) + seq![0x2du8] + dec_repr(depth)
}

/// The decimal rendering of `n`.
pub fn fmt_dec(n: usize) -> (r: Vec<u8>)
    ensures
        r@ == dec_repr(n as nat),
    decreases n,
{
    if n < 10 {
        let mut v: Vec<u8> = Vec::new();
        v.push(0x30 + (n as u8));
        proof {
            assert(v@ =~= dec_repr(n as nat));
        }
        v
    } else {
        let mut v = fmt_dec(n / 10);
        v.push(0x30 + ((n % 10) as u8));
        v
    }
}

/// The zero-padded decimal rendering of `n`.
pub fn fmt_padded4(n: usize) -> (r: Vec<u8>)
    ensures
        r@ == padded4(n as nat),
{
    let d = fmt_dec(n);
    if d.len() >= 4 {
        d
    } else {
        let pad = 4 - d.len();
        let mut v: Vec<u8> = Vec::new();
        let mut k: usize = 0;
        while k < pad
            invariant
                k <= pad,
                v@ =~= zeros(k as nat),
            decreases pad - k,
        {
            v.push(0x30);
            proof {
                assert(v@ =~= zeros((k + 1) as nat));
            }
            k += 1;
        }
        crate::text::push_all(&mut v, &d);
        v
    }
}

/// The identity string of the candidate with discovery index `num`, length
/// `length` and depth `depth`.
pub fn fmt_identity(num: usize, length: usize, depth: usize) -> (r: Vec<u8>)
    ensures
        r@ == identity_repr(num as nat, length as nat, depth as nat),
{
    let mut v = fmt_padded4(num);
    v.push(0x2d);
    let l = fmt_dec(length);
    crate::text::push_all(&mut v, &l);
    v.push(0x2d);
    let d = fmt_dec(depth);
    crate::text::push_all(&mut v, &d);
    proof {
        assert(v@ =~= identity_repr(num as nat, length as nat, depth as nat));
    }
    v
}

/// Every decimal rendering is non-empty and made of digit bytes.
proof fn lemma_dec_repr_digits(n: nat)
    ensures
        dec_repr(n).len() >= 1,
        forall|i: int| 0 <= i < dec_repr(n).len() ==> 0x30 <= #[trigger] dec_repr(n)[i] <= 0x39,
    decreases n,
{
    if n >= 10 {
        lemma_dec_repr_digits(n / 10);
    }
}

/// The leading digit of a positive number is not zero.
proof fn lemma_dec_repr_first(n: nat)
    requires
        n >= 1,
    ensures
        dec_repr(n)[0] != 0x30,
    decreases n,
{
    if n >= 10 {
        lemma_dec_repr_digits(n / 10);
        lemma_dec_repr_first(n / 10);
    }
}

/// Decimal rendering is injective.
proof fn lemma_dec_repr_injective(a: nat, b: nat)
    requires
        dec_repr(a) == dec_repr(b),
    ensures
        a == b,
    decreases a,
{
    lemma_dec_repr_digits(a / 10);
    lemma_dec_repr_digits(b / 10);
    if a < 10 && b < 10 {
        assert(dec_repr(a)[0] == dec_repr(b)[0]);
        assert(seq![dec_digit(a)][0] == dec_digit(a));
        assert(seq![dec_digit(b)][0] == dec_digit(b));
        assert(dec_digit(a) == dec_digit(b));
        assert(0x30 + a < 256 && 0x30 + b < 256);
        assert(a == b);
    } else if a < 10 {
        assert(dec_repr(a).len() == 1);
        assert(dec_repr(b).len() >= 2);
    } else if b < 10 {
        assert(dec_repr(a).len() >= 2);
        assert(dec_repr(b).len() == 1);
    } else {
        assert(dec_repr(a) == dec_repr(a / 10).push(dec_digit(a % 10)));
        assert(dec_repr(b) == dec_repr(b / 10).push(dec_digit(b % 10)));
        assert(dec_repr(a).last() == dec_digit(a % 10));
        assert(dec_repr(b).last() == dec_digit(b % 10));
        assert(a % 10 == b % 10);
        assert forall|i: int| 0 <= i < dec_repr(a / 10).len() implies #[trigger] dec_repr(a / 10)[i]
            == dec_repr(b / 10)[i] by {
            assert(dec_repr(a / 10).push(dec_digit(a % 10))[i] == dec_repr(a / 10)[i]);
            assert(dec_repr(b / 10).push(dec_digit(b % 10))[i] == dec_repr(b / 10)[i]);
        }
        assert(dec_repr(a / 10) =~= dec_repr(b / 10));
        lemma_dec_repr_injective(a / 10, b / 10);
        assert(a / 10 == b / 10);
        vstd::arithmetic::div_mod::lemma_fundamental_div_mod(a as int, 10);
        vstd::arithmetic::div_mod::lemma_fundamental_div_mod(b as int, 10);
        assert(a == b);
    }
}

/// Every byte of a padded rendering is a digit, and the rendering holds at
/// least four bytes.
proof fn lemma_padded4_digits(n: nat)
    ensures
        padded4(n).len() >= 4,
        forall|i: int| 0 <= i < padded4(n).len() ==> 0x30 <= #[trigger] padded4(n)[i] <= 0x39,
{
    lemma_dec_repr_digits(n);
}

/// Zero-padded decimal rendering is injective.
proof fn lemma_padded4_injective(a: nat, b: nat)
    requires
        padded4(a) == padded4(b),
    ensures
        a == b,
{
    lemma_dec_repr_digits(a);
    lemma_dec_repr_digits(b);
    let la = dec_repr(a).len();
    let lb = dec_repr(b).len();
    if la == lb {
        assert(dec_repr(a) =~= dec_repr(b)) by {
            if la < 4 {
                assert(forall|i: int|
                    0 <= i < la ==> dec_repr(a)[i] == padded4(a)[4 - la + i] && dec_repr(b)[i]
                        == padded4(b)[4 - lb + i]);
            }
        }
        lemma_dec_repr_injective(a, b);
    } else {
        let (x, y, lx, ly) = if la < lb {
            (a, b, la, lb)
        } else {
            (b, a, lb, la)
        };
        // The shorter rendering is padded with a zero where the longer one
        // holds its non-zero leading digit.
        assert(ly >= 2);
        assert(y >= 10) by {
            if y < 10 {
                assert(dec_repr(y).len() == 1);
            }
        }
        lemma_dec_repr_first(y);
        if ly <= 4 {
            assert(padded4(x)[4 - ly] == 0x30);
            assert(padded4(y)[4 - ly] == dec_repr(y)[0]);
        } else {
            assert(padded4(y).len() == ly);
            assert(padded4(x).len() == if lx >= 4 {
                lx
            } else {
                4
            });
        }
    }
}

/// Identity strings with distinct discovery indices are distinct, whatever
/// their lengths and depths.
pub proof fn lemma_identity_injective(a: nat, la: nat, da: nat, b: nat, lb: nat, db: nat)
    requires
        identity_repr(a, la, da) == identity_repr(b, lb, db),
    ensures
        a == b,
{
    lemma_padded4_digits(a);
    lemma_padded4_digits(b);
    let pa = padded4(a);
    let pb = padded4(b);
    if pa.len() == pb.len() {
        assert(pa =~= pb) by {
            assert(forall|i: int|
                0 <= i < pa.len() ==> identity_repr(a, la, da)[i] == pa[i] && identity_repr(
                    b,
                    lb,
                    db,
                )[i] == pb[i]);
        }
        lemma_padded4_injective(a, b);
    } else {
        let (k, n) = if pa.len() < pb.len() {
            (pa.len() as int, b)
        } else {
            (pb.len() as int, a)
        };
        // At the shorter index segment's end the one identity holds a dash,
        // the other a digit.
        assert(identity_repr(a, la, da)[k] == if pa.len() < pb.len() {
            0x2du8
        } else {
            padded4(a)[k]
        });
        assert(identity_repr(b, lb, db)[k] == if pa.len() < pb.len() {
            padded4(b)[k]
        } else {
            0x2du8
        });
    }
}

} // verus!
