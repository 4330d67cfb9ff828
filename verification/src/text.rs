//! Byte-level text handling for the template engine: placeholder patterns,
//! leftmost non-overlapping substitution, trimming and block wrapping.
//!
//! All generated program text is held as `Vec<u8>`; its mathematical model is
//! `Seq<u8>`.

use vstd::prelude::*;
use vstd::string::StringSliceAdditionalSpecFns;

verus! {

/// The placeholder that a carrier expression or a case source replaces.
pub open spec fn source_pat() -> Seq<u8> {
    seq![
        'S' as u8,
        'O' as u8,
        'U' as u8,
        'R' as u8,
        'C' as u8,
        'E' as u8,
        '!' as u8,
        '(' as u8,
        ')' as u8,
    ]
}

/// The placeholder for the pattern's declared value type.
pub open spec fn type_pat() -> Seq<u8> {
    seq!['T' as u8, 'Y' as u8, 'P' as u8, 'E' as u8, '!' as u8, '(' as u8, ')' as u8]
}

/// The placeholder for the pattern's declared literal value.
pub open spec fn value_pat() -> Seq<u8> {
    seq!['V' as u8, 'A' as u8, 'L' as u8, 'U' as u8, 'E' as u8, '!' as u8, '(' as u8, ')' as u8]
}

/// The placeholder for a branch condition; always resolved to `true`.
pub open spec fn cond_pat() -> Seq<u8> {
    seq!['C' as u8, 'O' as u8, 'N' as u8, 'D' as u8, '!' as u8, '(' as u8, ')' as u8]
}

/// The opening of a parameterised nesting site, up to but not including the
/// parameter.
pub open spec fn expre_pat() -> Seq<u8> {
    seq!['E' as u8, 'X' as u8, 'P' as u8, 'R' as u8, 'E' as u8, '!' as u8, '(' as u8]
}

/// The literal that every condition placeholder is resolved to.
pub open spec fn true_lit() -> Seq<u8> {
    seq!['t' as u8, 'r' as u8, 'u' as u8, 'e' as u8]
}

pub fn source_pattern() -> (r: Vec<u8>)
    ensures
        r@ == source_pat(),
{
    let mut v: Vec<u8> = Vec::new();
    v.push('S' as u8);
    v.push('O' as u8);
    v.push('U' as u8);
    v.push('R' as u8);
    v.push('C' as u8);
    v.push('E' as u8);
    v.push('!' as u8);
    v.push('(' as u8);
    v.push(')' as u8);
    proof {
        assert(v@ =~= source_pat());
    }
    v
}

pub fn type_pattern() -> (r: Vec<u8>)
    ensures
        r@ == type_pat(),
{
    let mut v: Vec<u8> = Vec::new();
    v.push('T' as u8);
    v.push('Y' as u8);
    v.push('P' as u8);
    v.push('E' as u8);
    v.push('!' as u8);
    v.push('(' as u8);
    v.push(')' as u8);
    proof {
        assert(v@ =~= type_pat());
    }
    v
}

pub fn value_pattern() -> (r: Vec<u8>)
    ensures
        r@ == value_pat(),
{
    let mut v: Vec<u8> = Vec::new();
    v.push('V' as u8);
    v.push('A' as u8);
    v.push('L' as u8);
    v.push('U' as u8);
    v.push('E' as u8);
    v.push('!' as u8);
    v.push('(' as u8);
    v.push(')' as u8);
    proof {
        assert(v@ =~= value_pat());
    }
    v
}

pub fn cond_pattern() -> (r: Vec<u8>)
    ensures
        r@ == cond_pat(),
{
    let mut v: Vec<u8> = Vec::new();
    v.push('C' as u8);
    v.push('O' as u8);
    v.push('N' as u8);
    v.push('D' as u8);
    v.push('!' as u8);
    v.push('(' as u8);
    v.push(')' as u8);
    proof {
        assert(v@ =~= cond_pat());
    }
    v
}

pub fn expre_pattern() -> (r: Vec<u8>)
    ensures
        r@ == expre_pat(),
{
    let mut v: Vec<u8> = Vec::new();
    v.push('E' as u8);
    v.push('X' as u8);
    v.push('P' as u8);
    v.push('R' as u8);
    v.push('E' as u8);
    v.push('!' as u8);
    v.push('(' as u8);
    proof {
        assert(v@ =~= expre_pat());
    }
    v
}

pub fn true_literal() -> (r: Vec<u8>)
    ensures
        r@ == true_lit(),
{
    let mut v: Vec<u8> = Vec::new();
    v.push('t' as u8);
    v.push('r' as u8);
    v.push('u' as u8);
    v.push('e' as u8);
    proof {
        assert(v@ =~= true_lit());
    }
    v
}

/// Appends all of `src` to `out`.
pub fn push_all(out: &mut Vec<u8>, src: &Vec<u8>)
    ensures
        final(out)@ == old(out)@ + src@,
{
    let mut j: usize = 0;
    while j < src.len()
        invariant
            j <= src@.len(),
            out@ == old(out)@ + src@.subrange(0, j as int),
        decreases src@.len() - j,
    {
        out.push(src[j]);
        proof {
            assert(old(out)@ + src@.subrange(0, j as int) + seq![src@[j as int]] =~= old(out)@
                + src@.subrange(0, j + 1));
        }
        j += 1;
    }
    proof {
        assert(src@.subrange(0, src@.len() as int) =~= src@);
    }
}

/// A copy of `s[lo..hi]`.
pub fn copy_range(s: &Vec<u8>, lo: usize, hi: usize) -> (r: Vec<u8>)
    requires
        lo <= hi <= s@.len(),
    ensures
        r@ == s@.subrange(lo as int, hi as int),
{
    let mut r: Vec<u8> = Vec::new();
    let mut k: usize = lo;
    while k < hi
        invariant
            lo <= k <= hi <= s@.len(),
            r@ == s@.subrange(lo as int, k as int),
        decreases hi - k,
    {
        r.push(s[k]);
        proof {
            assert(s@.subrange(lo as int, k as int) + seq![s@[k as int]] =~= s@.subrange(
                lo as int,
                k + 1,
            ));
        }
        k += 1;
    }
    r
}

/// A copy of `s` with the same contents.
pub fn clone_bytes(s: &Vec<u8>) -> (r: Vec<u8>)
    ensures
        r@ == s@,
{
    let r = s.clone();
    proof {
        assert(r@ =~= s@);
    }
    r
}

/// Whether `a` and `b` hold the same bytes.
pub fn bytes_eq(a: &Vec<u8>, b: &Vec<u8>) -> (r: bool)
    ensures
        r == (a@ == b@),
{
    if a.len() != b.len() {
        return false;
    }
    let mut j: usize = 0;
    while j < a.len()
        invariant
            a@.len() == b@.len(),
            j <= a@.len(),
            forall|k: int| 0 <= k < j ==> a@[k] == b@[k],
        decreases a@.len() - j,
    {
        if a[j] != b[j] {
            return false;
        }
        j += 1;
    }
    proof {
        assert(a@ =~= b@);
    }
    true
}

/// `pat` occurs in `s` starting at position `i`.
pub open spec fn match_at(s: Seq<u8>, pat: Seq<u8>, i: int) -> bool {
    0 <= i && i + pat.len() <= s.len() && s.subrange(i, i + pat.len()) == pat
}

/// Whether `pat` occurs in `s` at position `i`.
pub fn is_match_at(s: &Vec<u8>, pat: &Vec<u8>, i: usize) -> (r: bool)
    requires
        i <= s@.len(),
    ensures
        r == match_at(s@, pat@, i as int),
{
    if pat.len() > s.len() - i {
        return false;
    }
    let n = s.len();
    let mut j: usize = 0;
    while j < pat.len()
        invariant
            n == s@.len(),
            i + pat@.len() <= s@.len(),
            j <= pat@.len(),
            forall|k: int| 0 <= k < j ==> s@[i + k] == pat@[k],
        decreases pat@.len() - j,
    {
        if s[i + j] != pat[j] {
            proof {
                assert(s@.subrange(i as int, i + pat@.len())[j as int] == s@[i + j]);
            }
            return false;
        }
        j += 1;
    }
    proof {
        assert(s@.subrange(i as int, i + pat@.len()) =~= pat@);
    }
    true
}

/// `s` with its leftmost occurrence of `pat`, if any, replaced by `rep`.
pub open spec fn replaced_first(s: Seq<u8>, pat: Seq<u8>, rep: Seq<u8>) -> Seq<u8>
    decreases s.len(),
{
    if pat.len() == 0 || s.len() < pat.len() {
        s
    } else if s.subrange(0, pat.len() as int) == pat {
        rep + s.subrange(pat.len() as int, s.len() as int)
    } else {
        s.subrange(0, 1) + replaced_first(s.subrange(1, s.len() as int), pat, rep)
    }
}

/// `s` with every leftmost, non-overlapping occurrence of `pat` replaced by
/// `rep`; occurrences inside a replacement are not scanned again.
pub open spec fn replaced_all(s: Seq<u8>, pat: Seq<u8>, rep: Seq<u8>) -> Seq<u8>
    decreases s.len(),
{
    if pat.len() == 0 || s.len() < pat.len() {
        s
    } else if s.subrange(0, pat.len() as int) == pat {
        rep + replaced_all(s.subrange(pat.len() as int, s.len() as int), pat, rep)
    } else {
        s.subrange(0, 1) + replaced_all(s.subrange(1, s.len() as int), pat, rep)
    }
}

/// A suffix whose head matches the pattern rewrites by taking the replacement.
proof fn lemma_step_match(s: Seq<u8>, pat: Seq<u8>, rep: Seq<u8>, i: int)
    requires
        pat.len() > 0,
        match_at(s, pat, i),
    ensures
        replaced_all(s.subrange(i, s.len() as int), pat, rep) == rep + replaced_all(
            s.subrange(i + pat.len(), s.len() as int),
            pat,
            rep,
        ),
        replaced_first(s.subrange(i, s.len() as int), pat, rep) == rep + s.subrange(
            i + pat.len(),
            s.len() as int,
        ),
{
    let sub = s.subrange(i, s.len() as int);
    assert(sub.subrange(0, pat.len() as int) =~= s.subrange(i, i + pat.len()));
    assert(sub.subrange(pat.len() as int, sub.len() as int) =~= s.subrange(
        i + pat.len(),
        s.len() as int,
    ));
}

/// A suffix whose head does not match the pattern rewrites by keeping one byte.
proof fn lemma_step_no_match(s: Seq<u8>, pat: Seq<u8>, rep: Seq<u8>, i: int)
    requires
        pat.len() > 0,
        0 <= i < s.len(),
        !match_at(s, pat, i),
    ensures
        replaced_all(s.subrange(i, s.len() as int), pat, rep) == seq![s[i]] + replaced_all(
            s.subrange(i + 1, s.len() as int),
            pat,
            rep,
        ),
        replaced_first(s.subrange(i, s.len() as int), pat, rep) == seq![s[i]] + replaced_first(
            s.subrange(i + 1, s.len() as int),
            pat,
            rep,
        ),
{
    let sub = s.subrange(i, s.len() as int);
    if sub.len() >= pat.len() {
        assert(sub.subrange(0, pat.len() as int) =~= s.subrange(i, i + pat.len()));
        assert(sub.subrange(0, pat.len() as int) != pat) by {
            if s.subrange(i, i + pat.len()) == pat {
                assert(match_at(s, pat, i));
            }
        }
    }
    assert(sub.subrange(0, 1) =~= seq![s[i]]);
    assert(sub.subrange(1, sub.len() as int) =~= s.subrange(i + 1, s.len() as int));
}

/// `s` with every leftmost, non-overlapping occurrence of `pat` replaced by
/// `rep`.
pub fn replace_all(s: &Vec<u8>, pat: &Vec<u8>, rep: &Vec<u8>) -> (r: Vec<u8>)
    requires
        pat@.len() > 0,
    ensures
        r@ == replaced_all(s@, pat@, rep@),
{
    let mut out: Vec<u8> = Vec::new();
    let mut i: usize = 0;
    proof {
        assert(s@.subrange(0, s@.len() as int) =~= s@);
        assert(out@ + replaced_all(s@, pat@, rep@) =~= replaced_all(s@, pat@, rep@));
    }
    while i < s.len()
        invariant
            pat@.len() > 0,
            i <= s@.len(),
            replaced_all(s@, pat@, rep@) == out@ + replaced_all(
                s@.subrange(i as int, s@.len() as int),
                pat@,
                rep@,
            ),
        decreases s@.len() - i,
    {
        if is_match_at(s, pat, i) {
            proof {
                lemma_step_match(s@, pat@, rep@, i as int);
            }
            push_all(&mut out, rep);
            i += pat.len();
        } else {
            proof {
                lemma_step_no_match(s@, pat@, rep@, i as int);
                assert(out@ + (seq![s@[i as int]] + replaced_all(
                    s@.subrange(i + 1, s@.len() as int),
                    pat@,
                    rep@,
                )) =~= out@.push(s@[i as int]) + replaced_all(
                    s@.subrange(i + 1, s@.len() as int),
                    pat@,
                    rep@,
                ));
            }
            out.push(s[i]);
            i += 1;
        }
    }
    proof {
        assert(s@.subrange(i as int, s@.len() as int) =~= Seq::<u8>::empty());
        assert(out@ + Seq::<u8>::empty() =~= out@);
    }
    out
}

/// `s` with its leftmost occurrence of `pat`, if any, replaced by `rep`.
pub fn replace_first(s: &Vec<u8>, pat: &Vec<u8>, rep: &Vec<u8>) -> (r: Vec<u8>)
    requires
        pat@.len() > 0,
    ensures
        r@ == replaced_first(s@, pat@, rep@),
{
    let mut out: Vec<u8> = Vec::new();
    let mut i: usize = 0;
    proof {
        assert(s@.subrange(0, s@.len() as int) =~= s@);
        assert(out@ + replaced_first(s@, pat@, rep@) =~= replaced_first(s@, pat@, rep@));
    }
    while i < s.len()
        invariant
            pat@.len() > 0,
            i <= s@.len(),
            replaced_first(s@, pat@, rep@) == out@ + replaced_first(
                s@.subrange(i as int, s@.len() as int),
                pat@,
                rep@,
            ),
        decreases s@.len() - i,
    {
        if is_match_at(s, pat, i) {
            proof {
                lemma_step_match(s@, pat@, rep@, i as int);
            }
            push_all(&mut out, rep);
            let ghost mid = out@;
            let tail = copy_range(s, i + pat.len(), s.len());
            push_all(&mut out, &tail);
            return out;
        } else {
            proof {
                lemma_step_no_match(s@, pat@, rep@, i as int);
                assert(out@ + (seq![s@[i as int]] + replaced_first(
                    s@.subrange(i + 1, s@.len() as int),
                    pat@,
                    rep@,
                )) =~= out@.push(s@[i as int]) + replaced_first(
                    s@.subrange(i + 1, s@.len() as int),
                    pat@,
                    rep@,
                ));
            }
            out.push(s[i]);
            i += 1;
        }
    }
    proof {
        assert(s@.subrange(i as int, s@.len() as int) =~= Seq::<u8>::empty());
        assert(out@ + Seq::<u8>::empty() =~= out@);
    }
    out
}

/// Appends the bytes of `s` to `out`.
pub fn push_str_bytes(out: &mut Vec<u8>, s: &str)
    ensures
        final(out)@ == old(out)@ + s.spec_bytes(),
{
    let b = s.as_bytes();
    let v = vstd::slice::slice_to_vec(b);
    push_all(out, &v);
}

/// ASCII whitespace, as the trim of generated code treats it.
pub open spec fn is_space(b: u8) -> bool {
    b == 0x20 || (0x09 <= b && b <= 0x0d)
}

fn is_space_byte(b: u8) -> (r: bool)
    ensures
        r == is_space(b),
{
    b == 0x20 || (0x09 <= b && b <= 0x0d)
}

/// `s` without its leading whitespace.
pub open spec fn trimmed_start(s: Seq<u8>) -> Seq<u8>
    decreases s.len(),
{
    if s.len() > 0 && is_space(s[0]) {
        trimmed_start(s.subrange(1, s.len() as int))
    } else {
        s
    }
}

/// `s` without its trailing whitespace.
pub open spec fn trimmed_end(s: Seq<u8>) -> Seq<u8>
    decreases s.len(),
{
    if s.len() > 0 && is_space(s[s.len() - 1]) {
        trimmed_end(s.subrange(0, s.len() - 1))
    } else {
        s
    }
}

/// `s` without leading and trailing whitespace.
pub open spec fn trimmed(s: Seq<u8>) -> Seq<u8> {
    trimmed_end(trimmed_start(s))
}

proof fn lemma_trimmed_start(s: Seq<u8>, lo: int)
    requires
        0 <= lo <= s.len(),
        forall|k: int| 0 <= k < lo ==> is_space(s[k]),
        lo == s.len() || !is_space(s[lo]),
    ensures
        trimmed_start(s) == s.subrange(lo, s.len() as int),
    decreases lo,
{
    if lo == 0 {
        assert(s.subrange(0, s.len() as int) =~= s);
    } else {
        assert(is_space(s[0]));
        let t = s.subrange(1, s.len() as int);
        lemma_trimmed_start(t, lo - 1);
        assert(t.subrange(lo - 1, t.len() as int) =~= s.subrange(lo, s.len() as int));
    }
}

proof fn lemma_trimmed_end(s: Seq<u8>, hi: int)
    requires
        0 <= hi <= s.len(),
        forall|k: int| hi <= k < s.len() ==> is_space(s[k]),
        hi == 0 || !is_space(s[hi - 1]),
    ensures
        trimmed_end(s) == s.subrange(0, hi),
    decreases s.len(),
{
    if hi < s.len() {
        assert(is_space(s[s.len() - 1]));
        let t = s.subrange(0, s.len() - 1);
        lemma_trimmed_end(t, hi);
        assert(t.subrange(0, hi) =~= s.subrange(0, hi));
    } else {
        assert(s.subrange(0, hi) =~= s);
    }
}

/// `s` without leading and trailing ASCII whitespace.
pub fn trim(s: &Vec<u8>) -> (r: Vec<u8>)
    ensures
        r@ == trimmed(s@),
{
    let mut lo: usize = 0;
    while lo < s.len() && is_space_byte(s[lo])
        invariant
            lo <= s@.len(),
            forall|k: int| 0 <= k < lo ==> is_space(s@[k]),
        decreases s@.len() - lo,
    {
        lo += 1;
    }
    let mut hi: usize = s.len();
    while hi > lo && is_space_byte(s[hi - 1])
        invariant
            lo <= hi <= s@.len(),
            forall|k: int| hi <= k < s@.len() ==> is_space(s@[k]),
        decreases hi,
    {
        hi -= 1;
    }
    let r = copy_range(s, lo, hi);
    proof {
        lemma_trimmed_start(s@, lo as int);
        let t = s@.subrange(lo as int, s@.len() as int);
        lemma_trimmed_end(t, hi - lo);
        assert(t.subrange(0, hi - lo) =~= s@.subrange(lo as int, hi as int));
    }
    r
}

/// `s` wrapped as a block: an opening brace and a line break before it, a line
/// break and a closing brace after it.
pub open spec fn blocked(s: Seq<u8>) -> Seq<u8> {
    seq!['{' as u8, '\n' as u8] + s + seq!['\n' as u8, '}' as u8]
}

/// `s` wrapped as a block.
pub fn block(s: &Vec<u8>) -> (r: Vec<u8>)
    ensures
        r@ == blocked(s@),
{
    let mut r: Vec<u8> = Vec::new();
    r.push('{' as u8);
    r.push('\n' as u8);
    push_all(&mut r, s);
    r.push('\n' as u8);
    r.push('}' as u8);
    proof {
        assert(r@ =~= blocked(s@));
    }
    r
}

} // verus!
