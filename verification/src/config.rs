//! Bug patterns, their positive/negative cases, and the transformation flows
//! that nest a carrier expression into a new candidate.

use vstd::prelude::*;

use crate::expr::{Expr, Exprs, Program};
use crate::fmt::identity_repr;
use crate::text::{
    block, blocked, clone_bytes, cond_pat, cond_pattern, copy_range, expre_pat, expre_pattern,
    is_match_at, match_at, push_all, replace_all, replace_first, replaced_all, replaced_first,
    source_pat, source_pattern, trim, trimmed, true_lit, true_literal, type_pat, type_pattern,
    value_pat, value_pattern,
};

verus! {

/// One side of a bug pattern: `src` is the bug-relevant expression, `code` a
/// full program template holding one source placeholder.
pub struct Case {
    pub src: Vec<u8>,
    pub code: Vec<u8>,
}

impl Case {
    /// The program text when no carrier is supplied: the bare source text
    /// stands where the placeholder stood.
    pub open spec fn nested_bare(self) -> Seq<u8> {
        replaced_all(self.code@, source_pat(), self.src@)
    }

    /// The program text for carrier `e`: the carrier's own placeholders are
    /// resolved to the source text, the result is wrapped as a block and
    /// trimmed, and that block stands where the placeholder stood.
    pub open spec fn nested_with(self, e: Seq<u8>) -> Seq<u8> {
        replaced_all(
            self.code@,
            source_pat(),
            trimmed(blocked(replaced_all(e, source_pat(), self.src@))),
        )
    }

    /// Nests the optional carrier expression into this case's program
    /// template.
    pub fn nest(&self, expr: Option<&Vec<u8>>) -> (r: Vec<u8>)
        ensures
            expr is None ==> r@ == self.nested_bare(),
            expr matches Some(e) ==> r@ == self.nested_with(e@),
    {
        let pat = source_pattern();
        match expr {
            None => replace_all(&self.code, &pat, &self.src),
            Some(e) => {
                let inner = replace_all(e, &pat, &self.src);
                let b = block(&inner);
                let t = trim(&b);
                replace_all(&self.code, &pat, &t)
            },
        }
    }
}

impl Case {
    /// `self` and `o` hold the same template texts.
    pub open spec fn eqv(self, o: Case) -> bool {
        self.src@ == o.src@ && self.code@ == o.code@
    }

    /// An owned copy of this case.
    pub fn duplicate(&self) -> (c: Case)
        ensures
            c.eqv(*self),
    {
        Case { src: clone_bytes(&self.src), code: clone_bytes(&self.code) }
    }
}

/// An owned copy of a list of byte strings.
fn duplicate_texts(v: &Vec<Vec<u8>>) -> (r: Vec<Vec<u8>>)
    ensures
        r.deep_view() == v.deep_view(),
{
    let mut r: Vec<Vec<u8>> = Vec::new();
    let mut i: usize = 0;
    while i < v.len()
        invariant
            i <= v@.len(),
            r@.len() == i,
            forall|k: int| 0 <= k < i ==> #[trigger] r@[k]@ == v@[k]@,
        decreases v@.len() - i,
    {
        r.push(clone_bytes(&v[i]));
        i += 1;
    }
    proof {
        assert(r.deep_view() =~~= v.deep_view());
    }
    r
}

/// A bug pattern: a described true-bug / true-safe pair of cases with a
/// declared value type and literal value.
pub struct Testcase {
    pub desc: Vec<u8>,
    pub tags: Vec<Vec<u8>>,
    pub features: Vec<Vec<u8>>,
    pub ty: Vec<u8>,
    pub val: Vec<u8>,
    pub pos: Case,
    pub neg: Case,
}

impl Testcase {
    /// The positive and negative programs for the optional carrier.
    pub fn cases(&self, expr: Option<&Vec<u8>>) -> (r: (Program, Program))
        ensures
            expr is None ==> r.0.code@ == self.pos.nested_bare() && r.1.code@
                == self.neg.nested_bare(),
            expr matches Some(e) ==> r.0.code@ == self.pos.nested_with(e@) && r.1.code@
                == self.neg.nested_with(e@),
            r.0.metadata@ == Seq::<u8>::empty(),
            r.1.metadata@ == Seq::<u8>::empty(),
    {
        let pos_code = self.pos.nest(expr);
        let neg_code = self.neg.nest(expr);
        let pos = Program::new(pos_code, Vec::new());
        let neg = Program::new(neg_code, Vec::new());
        (pos, neg)
    }
}

impl Testcase {
    /// `self` and `o` hold the same pattern, field for field.
    pub open spec fn eqv(self, o: Testcase) -> bool {
        &&& self.desc@ == o.desc@
        &&& self.tags.deep_view() == o.tags.deep_view()
        &&& self.features.deep_view() == o.features.deep_view()
        &&& self.ty@ == o.ty@
        &&& self.val@ == o.val@
        &&& self.pos.eqv(o.pos)
        &&& self.neg.eqv(o.neg)
    }

    /// An owned copy of this pattern.
    pub fn duplicate(&self) -> (t: Testcase)
        ensures
            t.eqv(*self),
    {
        Testcase {
            desc: clone_bytes(&self.desc),
            tags: duplicate_texts(&self.tags),
            features: duplicate_texts(&self.features),
            ty: clone_bytes(&self.ty),
            val: clone_bytes(&self.val),
            pos: self.pos.duplicate(),
            neg: self.neg.duplicate(),
        }
    }
}

/// The deterministic part of one flow application: the flow template's first
/// source placeholder takes the carrier's code as a block, then every type,
/// value and condition placeholder is resolved.
pub open spec fn expanded(flow_code: Seq<u8>, src_code: Seq<u8>, ty: Seq<u8>, val: Seq<u8>) -> Seq<
    u8,
> {
    replaced_all(
        replaced_all(
            replaced_all(replaced_first(flow_code, source_pat(), blocked(src_code)), type_pat(), ty),
            value_pat(),
            val,
        ),
        cond_pat(),
        true_lit(),
    )
}

/// Position `j` closes the parameterised nesting site opened at `i`: it holds
/// the first closing parenthesis after the opening, on the same line.
pub open spec fn close_at(s: Seq<u8>, i: int, j: int) -> bool {
    i + 7 <= j < s.len() && s[j] == ')' as u8 && (forall|k: int|
        i + 7 <= k < j ==> s[k] != ')' as u8 && s[k] != '\n' as u8)
}

/// A parameterised nesting site occurs at position `i` of `s`.
pub open spec fn expre_at(s: Seq<u8>, i: int) -> bool {
    match_at(s, expre_pat(), i) && exists|j: int| close_at(s, i, j)
}

/// `s` holds at least one parameterised nesting site.
pub open spec fn contains_expre(s: Seq<u8>) -> bool {
    exists|i: int| expre_at(s, i)
}

/// `out` is one resolution of the suffix of `s` from `i` on: each
/// parameterised nesting site becomes a block wrapping some pool candidate's
/// code with its source placeholders resolved to the site's parameter, and
/// every byte outside a site is kept. Which candidate fills a site is the
/// sampler's choice; everything else is fixed.
pub open spec fn resolves_sites(s: Seq<u8>, i: int, out: Seq<u8>, pool: Seq<Expr>) -> bool
    decreases s.len() - i,
{
    if i < 0 || i >= s.len() {
        out == Seq::<u8>::empty()
    } else if expre_at(s, i) {
        exists|j: int, m: int|
            #![trigger close_at(s, i, j), pool[m]]
            {
                let chunk = blocked(replaced_all(pool[m].code@, source_pat(), s.subrange(i + 7, j)));
                close_at(s, i, j) && 0 <= m < pool.len() && chunk.len() <= out.len() && out.take(
                    chunk.len() as int,
                ) == chunk && resolves_sites(s, j + 1, out.skip(chunk.len() as int), pool)
            }
    } else {
        out.len() >= 1 && out.first() == s[i] && resolves_sites(s, i + 1, out.drop_first(), pool)
    }
}

/// A resolved site followed by a resolved tail is a resolved suffix.
proof fn lemma_resolves_site(s: Seq<u8>, i: int, j: int, m: int, rest: Seq<u8>, pool: Seq<Expr>)
    requires
        match_at(s, expre_pat(), i),
        close_at(s, i, j),
        0 <= m < pool.len(),
        resolves_sites(s, j + 1, rest, pool),
    ensures
        resolves_sites(
            s,
            i,
            blocked(replaced_all(pool[m].code@, source_pat(), s.subrange(i + 7, j))) + rest,
            pool,
        ),
{
    assert(0 <= i < s.len());
    assert(expre_at(s, i));
    let chunk = blocked(replaced_all(pool[m].code@, source_pat(), s.subrange(i + 7, j)));
    let out = chunk + rest;
    assert(out.take(chunk.len() as int) =~= chunk);
    assert(out.skip(chunk.len() as int) =~= rest);
    assert(resolves_sites(s, i, out, pool));
}

/// A kept byte followed by a resolved tail is a resolved suffix.
proof fn lemma_resolves_copy(s: Seq<u8>, i: int, rest: Seq<u8>, pool: Seq<Expr>)
    requires
        0 <= i < s.len(),
        !expre_at(s, i),
        resolves_sites(s, i + 1, rest, pool),
    ensures
        resolves_sites(s, i, seq![s[i]] + rest, pool),
{
    let out = seq![s[i]] + rest;
    assert(out.first() == s[i]);
    assert(out.drop_first() =~= rest);
}

/// Finds the closing parenthesis of a parameterised nesting site at `i`, if
/// one opens there.
fn find_site(s: &Vec<u8>, i: usize) -> (r: Option<usize>)
    requires
        i <= s@.len(),
    ensures
        match r {
            Option::Some(j) => match_at(s@, expre_pat(), i as int) && close_at(
                s@,
                i as int,
                j as int,
            ),
            Option::None => !expre_at(s@, i as int),
        },
{
    let pat = expre_pattern();
    if !is_match_at(s, &pat, i) {
        return None;
    }
    let n = s.len();
    let mut j: usize = i + 7;
    while j < n
        invariant
            n == s@.len(),
            match_at(s@, expre_pat(), i as int),
            i + 7 <= j <= n,
            forall|k: int| i + 7 <= k < j ==> s@[k] != ')' as u8 && s@[k] != '\n' as u8,
        decreases n - j,
    {
        if s[j] == ')' as u8 {
            return Some(j);
        }
        if s[j] == '\n' as u8 {
            proof {
                assert forall|m: int| !close_at(s@, i as int, m) by {
                    if i + 7 <= m < s@.len() && s@[m] == ')' as u8 {
                        assert(m != j);
                        if m < j {
                            assert(s@[m] != ')' as u8);
                        } else {
                            assert(!(s@[j as int] != ')' as u8 && s@[j as int] != '\n' as u8));
                        }
                    }
                }
            }
            return None;
        }
        j += 1;
    }
    proof {
        assert forall|m: int| !close_at(s@, i as int, m) by {
            if i + 7 <= m < s@.len() && s@[m] == ')' as u8 {
                assert(s@[m] != ')' as u8);
            }
        }
    }
    None
}

/// Resolves every parameterised nesting site of `s`: each site takes a block
/// wrapping a randomly sampled accepted candidate whose own source
/// placeholders are resolved to the site's parameter name. Returns the
/// resolved text and the updated depth.
fn resolve_expre(s: &Vec<u8>, depth0: usize, exprs: &Exprs) -> (r: (Vec<u8>, usize))
    requires
        contains_expre(s@) ==> exprs.0@.len() > 0,
        forall|i: int| 0 <= i < exprs.0@.len() ==> (#[trigger] exprs.0@[i]).depth < usize::MAX,
    ensures
        r.1 >= depth0,
        r.1 == depth0 || (exists|k: int|
            0 <= k < exprs.0@.len() && r.1 == (#[trigger] exprs.0@[k]).depth + 1),
        !contains_expre(s@) ==> r.0@ == s@ && r.1 == depth0,
        resolves_sites(s@, 0, r.0@, exprs.0@),
{
    let mut out: Vec<u8> = Vec::new();
    let mut depth = depth0;
    let mut i: usize = 0;
    let n = s.len();
    proof {
        assert(s@.subrange(0, 0) =~= Seq::<u8>::empty());
        assert forall|rest: Seq<u8>| #[trigger] resolves_sites(s@, 0, rest, exprs.0@)
            implies resolves_sites(s@, 0, out@ + rest, exprs.0@) by {
            assert(out@ + rest =~= rest);
        }
    }
    while i < n
        invariant
            n == s@.len(),
            i <= n,
            depth >= depth0,
            contains_expre(s@) ==> exprs.0@.len() > 0,
            forall|k: int| 0 <= k < exprs.0@.len() ==> (#[trigger] exprs.0@[k]).depth < usize::MAX,
            depth == depth0 || (exists|k: int|
                0 <= k < exprs.0@.len() && depth == (#[trigger] exprs.0@[k]).depth + 1),
            !contains_expre(s@) ==> out@ == s@.subrange(0, i as int) && depth == depth0,
            forall|rest: Seq<u8>| #[trigger] resolves_sites(s@, i as int, rest, exprs.0@)
                ==> resolves_sites(s@, 0, out@ + rest, exprs.0@),
        decreases n - i,
    {
        let ghost out0 = out@;
        let ghost i0 = i as int;
        match find_site(s, i) {
            Some(j) => {
                proof {
                    assert(expre_at(s@, i as int));
                    assert(contains_expre(s@));
                }
                let param = copy_range(s, i + 7, j);
                let sampled = match exprs.random_expr() {
                    Some(e) => e,
                    None => vstd::pervasive::unreached(),
                };
                let ghost m = choose|k: int| 0 <= k < exprs.0@.len() && *sampled == exprs.0@[k];
                proof {
                    assert(exprs.0@[m].depth < usize::MAX);
                    assert(exprs.0@[m].depth == sampled.depth);
                }
                if sampled.depth + 1 > depth {
                    depth = sampled.depth + 1;
                }
                let filled = sampled.fill_source(&param);
                let wrapped = block(&filled);
                push_all(&mut out, &wrapped);
                i = j + 1;
                proof {
                    let chunk = blocked(
                        replaced_all(exprs.0@[m].code@, source_pat(), s@.subrange(i0 + 7, j as int)),
                    );
                    assert(out@ == out0 + chunk);
                    assert forall|rest: Seq<u8>| #[trigger] resolves_sites(
                        s@,
                        i as int,
                        rest,
                        exprs.0@,
                    ) implies resolves_sites(s@, 0, out@ + rest, exprs.0@) by {
                        lemma_resolves_site(s@, i0, j as int, m, rest, exprs.0@);
                        assert(resolves_sites(s@, i0, chunk + rest, exprs.0@));
                        assert(out0 + (chunk + rest) =~= out@ + rest);
                    }
                }
            },
            None => {
                proof {
                    if !contains_expre(s@) {
                        assert(s@.subrange(0, i as int).push(s@[i as int]) =~= s@.subrange(
                            0,
                            i + 1,
                        ));
                    }
                }
                out.push(s[i]);
                i += 1;
                proof {
                    assert forall|rest: Seq<u8>| #[trigger] resolves_sites(
                        s@,
                        i as int,
                        rest,
                        exprs.0@,
                    ) implies resolves_sites(s@, 0, out@ + rest, exprs.0@) by {
                        lemma_resolves_copy(s@, i0, rest, exprs.0@);
                        assert(resolves_sites(s@, i0, seq![s@[i0]] + rest, exprs.0@));
                        assert(out0 + (seq![s@[i0]] + rest) =~= out@ + rest);
                    }
                }
            },
        }
    }
    proof {
        if !contains_expre(s@) {
            assert(s@.subrange(0, n as int) =~= s@);
        }
        assert(resolves_sites(s@, n as int, Seq::<u8>::empty(), exprs.0@));
        assert(out@ + Seq::<u8>::empty() =~= out@);
        assert(resolves_sites(s@, 0, out@, exprs.0@));
    }
    (out, depth)
}

/// A transformation flow: a named, reusable code shape that re-embeds a prior
/// candidate and may nest other accepted candidates at its parameterised
/// sites.
pub struct Flow {
    pub name: Vec<u8>,
    pub code: Vec<u8>,
}

impl Flow {
    /// Applies this flow to the carrier `src` for the pattern `case`, giving
    /// the candidate with discovery index `num`. The new candidate's length is
    /// the carrier's plus one; its depth never falls below the carrier's, and
    /// stays the carrier's when the flow has no parameterised site. A flow
    /// with such a site must only be applied once the accepted pool is
    /// non-empty.
    pub fn into_expr(&self, num: usize, src: &Expr, exprs: &Exprs, case: &Testcase) -> (e: Expr)
        requires
            src.length < usize::MAX,
            contains_expre(expanded(self.code@, src.code@, case.ty@, case.val@)) ==> exprs.0@.len()
                > 0,
            forall|i: int| 0 <= i < exprs.0@.len() ==> (#[trigger] exprs.0@[i]).depth < usize::MAX,
        ensures
            e.length == src.length + 1,
            e.depth >= src.depth,
            e.depth == src.depth || (exists|i: int|
                0 <= i < exprs.0@.len() && e.depth == (#[trigger] exprs.0@[i]).depth + 1),
            e.metadata@ == src.metadata@,
            e.num@ == identity_repr(num as nat, e.length as nat, e.depth as nat),
            resolves_sites(expanded(self.code@, src.code@, case.ty@, case.val@), 0, e.code@, exprs.0@),
            !contains_expre(expanded(self.code@, src.code@, case.ty@, case.val@)) ==> e.code@
                == expanded(self.code@, src.code@, case.ty@, case.val@) && e.depth == src.depth,
    {
        let spat = source_pattern();
        let b = block(&src.code);
        let step1 = replace_first(&self.code, &spat, &b);
        let tpat = type_pattern();
        let step2 = replace_all(&step1, &tpat, &case.ty);
        let vpat = value_pattern();
        let step3 = replace_all(&step2, &vpat, &case.val);
        let cpat = cond_pattern();
        let tl = true_literal();
        let step4 = replace_all(&step3, &cpat, &tl);
        let (code, depth) = resolve_expre(&step4, src.depth, exprs);
        let length = src.length + 1;
        let metadata = clone_bytes(&src.metadata);
        Expr::new(num, code, length, depth, metadata)
    }
}

impl Flow {
    /// `self` and `o` hold the same flow, field for field.
    pub open spec fn eqv(self, o: Flow) -> bool {
        self.name@ == o.name@ && self.code@ == o.code@
    }

    /// An owned copy of this flow.
    pub fn duplicate(&self) -> (f: Flow)
        ensures
            f.eqv(*self),
    {
        Flow { name: clone_bytes(&self.name), code: clone_bytes(&self.code) }
    }
}

/// An owned copy of a flow library.
pub fn duplicate_flows(v: &Vec<Flow>) -> (r: Vec<Flow>)
    ensures
        r@.len() == v@.len(),
        forall|k: int| 0 <= k < v@.len() ==> (#[trigger] r@[k]).eqv(v@[k]),
{
    let mut r: Vec<Flow> = Vec::new();
    let mut i: usize = 0;
    while i < v.len()
        invariant
            i <= v@.len(),
            r@.len() == i,
            forall|k: int| 0 <= k < i ==> (#[trigger] r@[k]).eqv(v@[k]),
        decreases v@.len() - i,
    {
        r.push(v[i].duplicate());
        i += 1;
    }
    r
}

/// The configuration of one run: the bug patterns, the flow library, and the
/// length and depth bounds of the search.
pub struct Config {
    pub testcases: Vec<Testcase>,
    pub flows: Vec<Flow>,
    pub length: usize,
    pub depth: usize,
}

impl Config {
    pub fn new(testcases: Vec<Testcase>, flows: Vec<Flow>, length: usize, depth: usize) -> (c:
        Config)
        ensures
            c.testcases == testcases,
            c.flows == flows,
            c.length == length,
            c.depth == depth,
    {
        Config { testcases, flows, length, depth }
    }
}

} // verus!
