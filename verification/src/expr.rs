//! Candidate variants: the generated snippets that the search nests into each
//! other, the append-only pool they are sampled from, and the compile-ready
//! program form handed to the detector.

use vstd::prelude::*;

use crate::fmt::{fmt_identity, identity_repr};
use crate::text::{clone_bytes, replace_all, replaced_all, source_pat, source_pattern};

verus! {

/// A candidate variant. `num` is its identity: the discovery index, length
/// and depth rendered as one string, unique within one pattern's search.
/// `length` counts the flow applications since the bare seed; `depth` the
/// deepest chain of sampled-expression substitutions.
pub struct Expr {
    pub num: Vec<u8>,
    pub code: Vec<u8>,
    pub length: usize,
    pub depth: usize,
    pub metadata: Vec<u8>,
}

impl Expr {
    /// A candidate with the identity rendered from its discovery index,
    /// length and depth.
    pub fn new(num: usize, code: Vec<u8>, length: usize, depth: usize, metadata: Vec<u8>) -> (e:
        Expr)
        ensures
            e.num@ == identity_repr(num as nat, length as nat, depth as nat),
            e.code == code,
            e.length == length,
            e.depth == depth,
            e.metadata == metadata,
    {
        let id = fmt_identity(num, length, depth);
        Expr { num: id, code, length, depth, metadata }
    }

    /// The seed candidate: the bare source placeholder, with length 0, depth 0
    /// and discovery index 0.
    pub fn source() -> (e: Expr)
        ensures
            e.num@ == identity_repr(0, 0, 0),
            e.code@ == source_pat(),
            e.length == 0,
            e.depth == 0,
            e.metadata@ == Seq::<u8>::empty(),
    {
        let code = source_pattern();
        let metadata: Vec<u8> = Vec::new();
        Expr::new(0, code, 0, 0, metadata)
    }

    /// This candidate's code with every source placeholder replaced by `src`.
    pub fn fill_source(&self, src: &Vec<u8>) -> (r: Vec<u8>)
        ensures
            r@ == replaced_all(self.code@, source_pat(), src@),
    {
        let pat = source_pattern();
        replace_all(&self.code, &pat, src)
    }

    /// An owned copy of this candidate.
    pub fn duplicate(&self) -> (e: Expr)
        ensures
            e.num@ == self.num@,
            e.code@ == self.code@,
            e.length == self.length,
            e.depth == self.depth,
            e.metadata@ == self.metadata@,
    {
        Expr {
            num: clone_bytes(&self.num),
            code: clone_bytes(&self.code),
            length: self.length,
            depth: self.depth,
            metadata: clone_bytes(&self.metadata),
        }
    }
}

/// Relies on rand::random_range over the range `0..n`: it returns a uniformly
/// random value at least 0 and strictly below `n`, and `n > 0` keeps the range
/// non-empty, so the call does not panic. Nothing more can be said of a random
/// draw.
#[verifier::external_body]
fn random_index(n: usize) -> (r: usize)
    requires
        n > 0,
    ensures
        r < n,
{
    rand::random_range(0..n)
}

/// The append-only pool of accepted candidates for one pattern's search: the
/// sampling source for parameterised nesting sites.
pub struct Exprs(pub Vec<Expr>);

impl Exprs {
    /// An empty pool.
    pub fn new() -> (e: Exprs)
        ensures
            e.0@.len() == 0,
    {
        Exprs(Vec::new())
    }

    /// Appends an accepted candidate; the pool never shrinks.
    pub fn push(&mut self, e: Expr)
        ensures
            final(self).0@ == old(self).0@.push(e),
    {
        self.0.push(e)
    }

    /// How many candidates the pool holds.
    pub fn len(&self) -> (n: usize)
        ensures
            n == self.0@.len(),
    {
        self.0.len()
    }

    /// A uniformly random element of the pool; `None` exactly when the pool is
    /// empty.
    pub fn random_expr(&self) -> (r: Option<&Expr>)
        ensures
            match r {
                Option::None => self.0@.len() == 0,
                Option::Some(e) => exists|i: int| 0 <= i < self.0@.len() && *e == self.0@[i],
            },
    {
        if self.0.len() == 0 {
            None
        } else {
            let i = random_index(self.0.len());
            Some(&self.0[i])
        }
    }
}

/// A compile-ready unit: the generated code text and a metadata comment.
pub struct Program {
    pub code: Vec<u8>,
    pub metadata: Vec<u8>,
}

impl Program {
    pub fn new(code: Vec<u8>, metadata: Vec<u8>) -> (p: Program)
        ensures
            p.code == code,
            p.metadata == metadata,
    {
        Program { code, metadata }
    }

    /// The text written into a harness: the code itself.
    pub fn merge(&self) -> (r: Vec<u8>)
        ensures
            r@ == self.code@,
    {
        clone_bytes(&self.code)
    }
}

} // verus!
