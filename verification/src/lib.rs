//! A robustness-evaluation harness for black-box bug detectors: it nests each
//! known bug pattern inside combinations of code-transforming flows, bounded
//! in length and depth, classifies the detector's verdict on every variant,
//! and aggregates per-pattern trees and cross-pattern statistics.

pub mod config;
pub mod eval_tree;
pub mod expr;
pub mod fmt;
pub mod oracle;
pub mod search;
pub mod summary;
pub mod text;

use vstd::prelude::*;

use crate::config::Config;
use crate::search::Search;
use crate::text::copy_range;

verus! {

/// The suffix of `s` after its last occurrence of `b`; all of `s` when `b`
/// does not occur.
pub open spec fn after_last(s: Seq<u8>, b: u8) -> Seq<u8>
    decreases s.len(),
{
    if s.len() == 0 {
        s
    } else if s.last() == b {
        Seq::<u8>::empty()
    } else {
        after_last(s.take(s.len() - 1), b) + seq![s.last()]
    }
}

/// The prefix of `s` before its last occurrence of `b`; all of `s` when `b`
/// does not occur.
pub open spec fn before_last(s: Seq<u8>, b: u8) -> Seq<u8>
    decreases s.len(),
{
    if s.len() == 0 {
        s
    } else if s.last() == b {
        s.take(s.len() - 1)
    } else {
        before_last(s.take(s.len() - 1), b)
    }
}

/// The file name of a path, as the platform reads it: the last non-empty
/// component, ignoring trailing separators and trailing current-directory
/// components; none when the path is empty, names only the root, or ends in a
/// parent-directory component.
pub open spec fn file_name_of(path: Seq<u8>) -> Option<Seq<u8>>
    decreases path.len(),
{
    if path.len() == 0 {
        None
    } else if path.last() == '/' as u8 {
        file_name_of(path.take(path.len() - 1))
    } else {
        let name = after_last(path, '/' as u8);
        if name.len() == 1 && name[0] == '.' as u8 {
            file_name_of(path.take(path.len() - 1))
        } else if name.len() == 2 && name[0] == '.' as u8 && name[1] == '.' as u8 {
            None
        } else {
            Some(name)
        }
    }
}

/// A file name without the extension after its last dot; a dot that starts
/// the name opens no extension.
pub open spec fn stem_of(name: Seq<u8>) -> Seq<u8> {
    if exists|i: int| 1 <= i < name.len() && name[i] == '.' as u8 {
        before_last(name, '.' as u8)
    } else {
        name
    }
}

/// The file stem of a path: the stem of its file name, when it has one.
pub open spec fn file_stem_of(path: Seq<u8>) -> Option<Seq<u8>> {
    match file_name_of(path) {
        None => None,
        Some(name) => Some(stem_of(name)),
    }
}

proof fn lemma_after_last(s: Seq<u8>, b: u8, k: int)
    requires
        0 <= k <= s.len(),
        k == 0 || s[k - 1] == b,
        forall|i: int| k <= i < s.len() ==> s[i] != b,
    ensures
        after_last(s, b) == s.subrange(k, s.len() as int),
    decreases s.len(),
{
    if s.len() == 0 {
        assert(s.subrange(0, 0) =~= s);
    } else if s.last() == b {
        assert(k == s.len());
        assert(s.subrange(k, s.len() as int) =~= Seq::<u8>::empty());
    } else {
        assert(k < s.len());
        let t = s.take(s.len() - 1);
        lemma_after_last(t, b, k);
        assert(t.subrange(k, t.len() as int) + seq![s.last()] =~= s.subrange(k, s.len() as int));
    }
}

proof fn lemma_before_last(s: Seq<u8>, b: u8, j: int)
    requires
        0 <= j < s.len(),
        s[j] == b,
        forall|i: int| j < i < s.len() ==> s[i] != b,
    ensures
        before_last(s, b) == s.subrange(0, j),
    decreases s.len(),
{
    if s.last() == b {
        assert(j == s.len() - 1);
        assert(s.take(s.len() - 1) =~= s.subrange(0, j));
    } else {
        let t = s.take(s.len() - 1);
        lemma_before_last(t, b, j);
        assert(t.subrange(0, j) =~= s.subrange(0, j));
    }
}

/// The model of the one detector under evaluation: the path of its binary and
/// the path of the scratch harness root, held as plain path strings. Running
/// the binary is the caller's affair; the model answers what the search needs
/// of it, such as the tool's display name.
pub struct Executor {
    pub tool: Vec<u8>,
    pub harness: Vec<u8>,
}

impl Executor {
    pub fn new(tool: Vec<u8>, harness: Vec<u8>) -> (e: Executor)
        ensures
            e.tool == tool,
            e.harness == harness,
    {
        Executor { tool, harness }
    }

    /// Whether the tool path has a file name at all; on a path without one
    /// the original tooling has no display name and gives up.
    pub fn has_file_name(&self) -> (r: bool)
        ensures
            r == (file_name_of(self.tool@) is Some),
    {
        file_name_bounds(&self.tool).is_some()
    }

    /// The tool's display name: the file stem of its binary's path.
    pub fn name(&self) -> (r: Vec<u8>)
        requires
            file_name_of(self.tool@) is Some,
        ensures
            Some(r@) == file_stem_of(self.tool@),
    {
        let t = &self.tool;
        let (lo, hi) = match file_name_bounds(t) {
            Some(b) => b,
            None => vstd::pervasive::unreached(),
        };
        let ghost name = t@.subrange(lo as int, hi as int);
        // the last dot strictly inside the file name, if any
        let mut dot: usize = lo;
        let mut j: usize = lo + 1;
        while j < hi
            invariant
                hi <= t@.len(),
            lo < j <= hi,
                lo <= dot < j,
                dot == lo || t@[dot as int] == '.' as u8,
                forall|i: int| dot < i < j ==> t@[i] != '.' as u8,
            decreases hi - j,
        {
            if t[j] == '.' as u8 {
                dot = j;
            }
            j += 1;
        }
        if dot > lo {
            proof {
                assert(name[dot - lo] == '.' as u8);
                lemma_before_last(name, '.' as u8, dot - lo);
                assert(name.subrange(0, dot - lo) =~= t@.subrange(lo as int, dot as int));
            }
            copy_range(t, lo, dot)
        } else {
            proof {
                assert forall|i: int| !(1 <= i < name.len() && name[i] == '.' as u8) by {
                    if 1 <= i < name.len() {
                        assert(name[i] == t@[lo + i]);
                    }
                }
            }
            copy_range(t, lo, hi)
        }
    }
}

/// The bounds of the file-name component of `t`, when `t` has one: the name
/// is `t[lo..hi]`.
fn file_name_bounds(t: &Vec<u8>) -> (r: Option<(usize, usize)>)
    ensures
        match r {
            Option::Some(b) => b.0 < b.1 <= t@.len() && file_name_of(t@) == Some(
                t@.subrange(b.0 as int, b.1 as int),
            ),
            Option::None => file_name_of(t@) is None,
        },
{
    let n = t.len();
    let mut hi: usize = n;
    proof {
        assert(t@.subrange(0, n as int) =~= t@);
    }
    loop
        invariant
            n == t@.len(),
            hi <= n,
            file_name_of(t@) == file_name_of(t@.subrange(0, hi as int)),
        decreases hi,
    {
        let ghost hi0 = hi;
        while hi > 0 && t[hi - 1] == '/' as u8
            invariant
                n == t@.len(),
                hi <= hi0 <= n,
                file_name_of(t@) == file_name_of(t@.subrange(0, hi as int)),
            decreases hi,
        {
            proof {
                let s = t@.subrange(0, hi as int);
                assert(s.take(s.len() - 1) =~= t@.subrange(0, hi - 1));
            }
            hi -= 1;
        }
        if hi == 0 {
            proof {
                assert(t@.subrange(0, 0) =~= Seq::<u8>::empty());
            }
            return None;
        }
        let mut lo: usize = hi;
        while lo > 0 && t[lo - 1] != '/' as u8
            invariant
                hi <= n == t@.len(),
                lo <= hi,
                forall|k: int| lo <= k < hi ==> t@[k] != '/' as u8,
            decreases lo,
        {
            lo -= 1;
        }
        proof {
            let s = t@.subrange(0, hi as int);
            lemma_after_last(s, '/' as u8, lo as int);
            assert(s.subrange(lo as int, hi as int) =~= t@.subrange(lo as int, hi as int));
        }
        if hi - lo == 1 && t[lo] == '.' as u8 {
            // a trailing current-directory component: drop it and go on
            proof {
                let s = t@.subrange(0, hi as int);
                assert(s.take(s.len() - 1) =~= t@.subrange(0, hi - 1));
            }
            hi -= 1;
        } else if hi - lo == 2 && t[lo] == '.' as u8 && t[lo + 1] == '.' as u8 {
            return None;
        } else {
            return Some((lo, hi));
        }
    }
}

/// A failed evaluator operation.
#[derive(Debug, Clone, Copy, PartialEq, Eq, Structural)]
pub enum EvalError {
    /// A pattern index beyond the loaded patterns was requested.
    IndexOutOfRange,
}

impl EvalError {
    /// The fixed message under which this error is reported.
    pub fn message(&self) -> (r: &'static str)
        ensures
            r@ == "Index is out of bounds"@,
    {
        "Index is out of bounds"
    }
}

/// The orchestrator's verified core: it owns the detector model, the loaded
/// configuration and the requested pattern indices, and hands out one search
/// per pattern.
pub struct Evaluator {
    pub executor: Executor,
    pub config: Config,
    pub targets: Vec<usize>,
}

impl Evaluator {
    pub fn new(executor: Executor, config: Config, targets: Vec<usize>) -> (e: Evaluator)
        ensures
            e.executor == executor,
            e.config == config,
            e.targets == targets,
    {
        Evaluator { executor, config, targets }
    }

    /// The pattern indices to evaluate: the explicit targets when any were
    /// given, else every loaded pattern in order.
    pub fn target_indices(&self) -> (r: Vec<usize>)
        ensures
            self.targets@.len() > 0 ==> r@ == self.targets@,
            self.targets@.len() == 0 ==> r@.len() == self.config.testcases@.len() && (forall|k: int|
                0 <= k < r@.len() ==> #[trigger] r@[k] == k),
    {
        if self.targets.len() > 0 {
            let mut r: Vec<usize> = Vec::new();
            let mut i: usize = 0;
            while i < self.targets.len()
                invariant
                    i <= self.targets@.len(),
                    r@ =~= self.targets@.subrange(0, i as int),
                decreases self.targets@.len() - i,
            {
                r.push(self.targets[i]);
                proof {
                    assert(self.targets@.subrange(0, i as int).push(self.targets@[i as int])
                        =~= self.targets@.subrange(0, i + 1));
                }
                i += 1;
            }
            proof {
                assert(self.targets@.subrange(0, self.targets@.len() as int) =~= self.targets@);
            }
            r
        } else {
            let mut r: Vec<usize> = Vec::new();
            let mut i: usize = 0;
            while i < self.config.testcases.len()
                invariant
                    i <= self.config.testcases@.len(),
                    r@.len() == i,
                    forall|k: int| 0 <= k < i ==> #[trigger] r@[k] == k,
                decreases self.config.testcases@.len() - i,
            {
                r.push(i);
                i += 1;
            }
            r
        }
    }

    /// Begins the search for pattern `idx` under the configured bounds; a
    /// requested index beyond the loaded patterns is refused, and the caller
    /// aborts the run.
    pub fn evaluate(&self, idx: usize) -> (r: Result<Search, EvalError>)
        ensures
            r is Ok <==> idx < self.config.testcases@.len(),
            (r matches Ok(s) ==> {
                &&& s.wf()
                &&& !s.done()
                &&& s.tree.nodes@.len() == 0
                &&& s.summary.idx == idx
                &&& s.summary.variant_count == 0
                &&& s.summary.robust_count == 0
                &&& s.summary.tp_count == 0
                &&& s.summary.fn_count == 0
                &&& s.summary.fp_count == 0
                &&& s.summary.tn_count == 0
                &&& s.summary.err_count == 0
                &&& s.testcase.eqv(self.config.testcases@[idx as int])
                &&& s.flows@.len() == self.config.flows@.len()
                &&& (forall|k: int|
                    0 <= k < s.flows@.len() ==> (#[trigger] s.flows@[k]).eqv(
                        self.config.flows@[k],
                    ))
                &&& s.max_length == self.config.length
                &&& s.max_depth == self.config.depth
            }),
    {
        if idx >= self.config.testcases.len() {
            Err(EvalError::IndexOutOfRange)
        } else {
            let testcase = self.config.testcases[idx].duplicate();
            let flows = crate::config::duplicate_flows(&self.config.flows);
            Ok(Search::new(testcase, flows, self.config.length, self.config.depth, idx))
        }
    }
}

} // verus!
