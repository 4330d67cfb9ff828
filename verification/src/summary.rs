//! Per-pattern counters and the cross-pattern rollup: how often each verdict
//! category occurred at all, and how often it covered every variant.

use vstd::prelude::*;

use crate::oracle::EvalResults;

verus! {

/// The per-pattern counters of one search run.
pub struct EvalSummary {
    pub idx: usize,
    pub variant_count: usize,
    pub robust_count: usize,
    pub tp_count: usize,
    pub fn_count: usize,
    pub fp_count: usize,
    pub tn_count: usize,
    pub err_count: usize,
}

impl EvalSummary {
    /// Fresh counters for pattern `idx`, all zero.
    pub fn new(idx: usize) -> (s: EvalSummary)
        ensures
            s.idx == idx,
            s.variant_count == 0,
            s.robust_count == 0,
            s.tp_count == 0,
            s.fn_count == 0,
            s.fp_count == 0,
            s.tn_count == 0,
            s.err_count == 0,
    {
        EvalSummary {
            idx,
            variant_count: 0,
            robust_count: 0,
            tp_count: 0,
            fn_count: 0,
            fp_count: 0,
            tn_count: 0,
            err_count: 0,
        }
    }

    /// The counters are far enough from the machine limit to take one more
    /// variant.
    pub open spec fn can_count(self) -> bool {
        &&& self.variant_count < usize::MAX
        &&& self.robust_count < usize::MAX
        &&& self.tp_count < usize::MAX
        &&& self.fn_count < usize::MAX
        &&& self.fp_count < usize::MAX
        &&& self.tn_count < usize::MAX
        &&& self.err_count + 2 <= usize::MAX
    }

    /// The counters after one more variant with verdict pair `res`.
    pub open spec fn counted(self, res: EvalResults) -> EvalSummary {
        EvalSummary {
            idx: self.idx,
            variant_count: (self.variant_count + 1) as usize,
            robust_count: (self.robust_count + (if res.robust() {
                1int
            } else {
                0int
            })) as usize,
            tp_count: (self.tp_count + (if res.0 is TP {
                1int
            } else {
                0int
            })) as usize,
            fn_count: (self.fn_count + (if res.0 is FN {
                1int
            } else {
                0int
            })) as usize,
            fp_count: (self.fp_count + (if res.1 is FP {
                1int
            } else {
                0int
            })) as usize,
            tn_count: (self.tn_count + (if res.1 is TN {
                1int
            } else {
                0int
            })) as usize,
            err_count: (self.err_count + (if res.0 is Error {
                1int
            } else {
                0int
            }) + (if res.1 is Error {
                1int
            } else {
                0int
            })) as usize,
        }
    }

    /// Counts one variant: exactly one of the positive-side counters and one
    /// of the negative-side counters steps, a failed side stepping the error
    /// counter, and the robust counter steps exactly on the robust pair.
    pub fn count(&mut self, res: &EvalResults)
        requires
            res.wf(),
            old(self).can_count(),
        ensures
            *final(self) == old(self).counted(*res),
            final(self).idx == old(self).idx,
            final(self).variant_count == old(self).variant_count + 1,
            final(self).tp_count as int == old(self).tp_count + (if res.0 is TP {
                1int
            } else {
                0int
            }),
            final(self).fn_count as int == old(self).fn_count + (if res.0 is FN {
                1int
            } else {
                0int
            }),
            final(self).fp_count as int == old(self).fp_count + (if res.1 is FP {
                1int
            } else {
                0int
            }),
            final(self).tn_count as int == old(self).tn_count + (if res.1 is TN {
                1int
            } else {
                0int
            }),
            final(self).err_count as int == old(self).err_count + (if res.0 is Error {
                1int
            } else {
                0int
            }) + (if res.1 is Error {
                1int
            } else {
                0int
            }),
            final(self).robust_count as int == old(self).robust_count + (if res.robust() {
                1int
            } else {
                0int
            }),
    {
        self.variant_count += 1;
        if matches!(res.0, crate::oracle::EvalResult::Error) {
            self.err_count += 1;
        } else if matches!(res.0, crate::oracle::EvalResult::TP) {
            self.tp_count += 1;
        } else {
            self.fn_count += 1;
        }
        if matches!(res.1, crate::oracle::EvalResult::Error) {
            self.err_count += 1;
        } else if matches!(res.1, crate::oracle::EvalResult::FP) {
            self.fp_count += 1;
        } else {
            self.tn_count += 1;
        }
        if res.is_robust() {
            self.robust_count += 1;
        }
    }
}

/// One rollup cell: in how many patterns a category occurred at all
/// (`normal`), and in how many it covered the whole denominator (`absolute`).
pub struct Metric {
    pub normal: usize,
    pub absolute: usize,
}

impl Metric {
    /// A zeroed cell.
    pub fn new() -> (m: Metric)
        ensures
            m.normal == 0,
            m.absolute == 0,
    {
        Metric { normal: 0, absolute: 0 }
    }

    /// Folds one pattern in: a non-zero count is an occurrence, and a count
    /// equal to the denominator `tar` an exact cover.
    pub fn count(&mut self, src: usize, tar: usize)
        requires
            old(self).normal < usize::MAX,
            old(self).absolute < usize::MAX,
        ensures
            final(self).normal as int == old(self).normal + (if src != 0 {
                1int
            } else {
                0int
            }),
            final(self).absolute as int == old(self).absolute + (if src != 0 && src == tar {
                1int
            } else {
                0int
            }),
    {
        if src != 0 {
            self.normal += 1;
            if src == tar {
                self.absolute += 1;
            }
        }
    }

    /// Folds one pattern in against the doubled denominator `2 * tar`, as the
    /// error category is measured: each variant offers two chances to fail.
    pub fn count_doubled(&mut self, src: usize, tar: usize)
        requires
            old(self).normal < usize::MAX,
            old(self).absolute < usize::MAX,
        ensures
            final(self).normal as int == old(self).normal + (if src != 0 {
                1int
            } else {
                0int
            }),
            final(self).absolute as int == old(self).absolute + (if src != 0 && src == 2 * tar {
                1int
            } else {
                0int
            }),
    {
        if src != 0 {
            self.normal += 1;
            if src % 2 == 0 && src / 2 == tar {
                self.absolute += 1;
            }
        }
    }
}

/// The occurrence and exact-cover tallies of one category over a list of
/// summaries: `num` picks the category's count, `den` its denominator.
pub open spec fn metric_folded(
    s: Seq<EvalSummary>,
    num: spec_fn(EvalSummary) -> nat,
    den: spec_fn(EvalSummary) -> nat,
) -> (nat, nat)
    decreases s.len(),
{
    if s.len() == 0 {
        (0nat, 0nat)
    } else {
        let prev = metric_folded(s.drop_last(), num, den);
        let m = s.last();
        (
            prev.0 + (if num(m) != 0 {
                1nat
            } else {
                0nat
            }),
            prev.1 + (if num(m) != 0 && num(m) == den(m) {
                1nat
            } else {
                0nat
            }),
        )
    }
}

/// In every rollup cell the exact-cover tally never exceeds the occurrence
/// tally, and the occurrence tally never exceeds the number of summaries
/// folded.
pub proof fn lemma_metric_folded_bounds(
    s: Seq<EvalSummary>,
    num: spec_fn(EvalSummary) -> nat,
    den: spec_fn(EvalSummary) -> nat,
)
    ensures
        metric_folded(s, num, den).1 <= metric_folded(s, num, den).0 <= s.len(),
    decreases s.len(),
{
    if s.len() > 0 {
        lemma_metric_folded_bounds(s.drop_last(), num, den);
    }
}

/// Folding one more summary in never decreases either tally of any cell.
pub proof fn lemma_metric_folded_monotone(
    s: Seq<EvalSummary>,
    x: EvalSummary,
    num: spec_fn(EvalSummary) -> nat,
    den: spec_fn(EvalSummary) -> nat,
)
    ensures
        metric_folded(s.push(x), num, den).0 >= metric_folded(s, num, den).0,
        metric_folded(s.push(x), num, den).1 >= metric_folded(s, num, den).1,
{
    assert(s.push(x).drop_last() =~= s);
    assert(s.push(x).last() == x);
}

/// The cross-pattern rollup: one cell per verdict category, plus the name of
/// the tool under evaluation.
pub struct EvalReport {
    pub tool: Vec<u8>,
    pub robust_detection: Metric,
    pub true_positive: Metric,
    pub false_negative: Metric,
    pub false_positive: Metric,
    pub true_negative: Metric,
    pub error: Metric,
}

impl EvalReport {
    /// An empty rollup for the named tool.
    pub fn new(tool: Vec<u8>) -> (r: EvalReport)
        ensures
            r.tool == tool,
            r.robust_detection.normal == 0 && r.robust_detection.absolute == 0,
            r.true_positive.normal == 0 && r.true_positive.absolute == 0,
            r.false_negative.normal == 0 && r.false_negative.absolute == 0,
            r.false_positive.normal == 0 && r.false_positive.absolute == 0,
            r.true_negative.normal == 0 && r.true_negative.absolute == 0,
            r.error.normal == 0 && r.error.absolute == 0,
    {
        EvalReport {
            tool,
            robust_detection: Metric::new(),
            true_positive: Metric::new(),
            false_negative: Metric::new(),
            false_positive: Metric::new(),
            true_negative: Metric::new(),
            error: Metric::new(),
        }
    }

    /// Folds all summaries into one rollup. Each cell holds, for its category,
    /// in how many patterns the category occurred at all and in how many it
    /// covered every variant; the error category's denominator is two
    /// outcomes per variant.
    pub fn report(tool: Vec<u8>, summaries: &Vec<EvalSummary>) -> (r: EvalReport)
        ensures
            r.tool == tool,
            (r.robust_detection.normal as nat, r.robust_detection.absolute as nat) == metric_folded(
                summaries@,
                (|s: EvalSummary| s.robust_count as nat),
                (|s: EvalSummary| s.variant_count as nat),
            ),
            (r.true_positive.normal as nat, r.true_positive.absolute as nat) == metric_folded(
                summaries@,
                (|s: EvalSummary| s.tp_count as nat),
                (|s: EvalSummary| s.variant_count as nat),
            ),
            (r.false_negative.normal as nat, r.false_negative.absolute as nat) == metric_folded(
                summaries@,
                (|s: EvalSummary| s.fn_count as nat),
                (|s: EvalSummary| s.variant_count as nat),
            ),
            (r.false_positive.normal as nat, r.false_positive.absolute as nat) == metric_folded(
                summaries@,
                (|s: EvalSummary| s.fp_count as nat),
                (|s: EvalSummary| s.variant_count as nat),
            ),
            (r.true_negative.normal as nat, r.true_negative.absolute as nat) == metric_folded(
                summaries@,
                (|s: EvalSummary| s.tn_count as nat),
                (|s: EvalSummary| s.variant_count as nat),
            ),
            (r.error.normal as nat, r.error.absolute as nat) == metric_folded(
                summaries@,
                (|s: EvalSummary| s.err_count as nat),
                (|s: EvalSummary| 2 * s.variant_count as nat),
            ),
    {
        let mut r = EvalReport::new(tool);
        let n = summaries.len();
        let mut i: usize = 0;
        while i < n
            invariant
                n == summaries@.len(),
                i <= n,
                r.tool == tool,
                (r.robust_detection.normal as nat, r.robust_detection.absolute as nat)
                    == metric_folded(
                    summaries@.take(i as int),
                    (|s: EvalSummary| s.robust_count as nat),
                    (|s: EvalSummary| s.variant_count as nat),
                ),
                (r.true_positive.normal as nat, r.true_positive.absolute as nat) == metric_folded(
                    summaries@.take(i as int),
                    (|s: EvalSummary| s.tp_count as nat),
                    (|s: EvalSummary| s.variant_count as nat),
                ),
                (r.false_negative.normal as nat, r.false_negative.absolute as nat) == metric_folded(
                    summaries@.take(i as int),
                    (|s: EvalSummary| s.fn_count as nat),
                    (|s: EvalSummary| s.variant_count as nat),
                ),
                (r.false_positive.normal as nat, r.false_positive.absolute as nat) == metric_folded(
                    summaries@.take(i as int),
                    (|s: EvalSummary| s.fp_count as nat),
                    (|s: EvalSummary| s.variant_count as nat),
                ),
                (r.true_negative.normal as nat, r.true_negative.absolute as nat) == metric_folded(
                    summaries@.take(i as int),
                    (|s: EvalSummary| s.tn_count as nat),
                    (|s: EvalSummary| s.variant_count as nat),
                ),
                (r.error.normal as nat, r.error.absolute as nat) == metric_folded(
                    summaries@.take(i as int),
                    (|s: EvalSummary| s.err_count as nat),
                    (|s: EvalSummary| 2 * s.variant_count as nat),
                ),
            decreases n - i,
        {
            proof {
                lemma_metric_folded_bounds(
                    summaries@.take(i as int),
                    (|s: EvalSummary| s.robust_count as nat),
                    (|s: EvalSummary| s.variant_count as nat),
                );
                lemma_metric_folded_bounds(
                    summaries@.take(i as int),
                    (|s: EvalSummary| s.tp_count as nat),
                    (|s: EvalSummary| s.variant_count as nat),
                );
                lemma_metric_folded_bounds(
                    summaries@.take(i as int),
                    (|s: EvalSummary| s.fn_count as nat),
                    (|s: EvalSummary| s.variant_count as nat),
                );
                lemma_metric_folded_bounds(
                    summaries@.take(i as int),
                    (|s: EvalSummary| s.fp_count as nat),
                    (|s: EvalSummary| s.variant_count as nat),
                );
                lemma_metric_folded_bounds(
                    summaries@.take(i as int),
                    (|s: EvalSummary| s.tn_count as nat),
                    (|s: EvalSummary| s.variant_count as nat),
                );
                lemma_metric_folded_bounds(
                    summaries@.take(i as int),
                    (|s: EvalSummary| s.err_count as nat),
                    (|s: EvalSummary| 2 * s.variant_count as nat),
                );
                assert(summaries@.take(i + 1).drop_last() =~= summaries@.take(i as int));
                assert(summaries@.take(i + 1).last() == summaries@[i as int]);
            }
            let s = &summaries[i];
            r.robust_detection.count(s.robust_count, s.variant_count);
            r.true_positive.count(s.tp_count, s.variant_count);
            r.false_negative.count(s.fn_count, s.variant_count);
            r.false_positive.count(s.fp_count, s.variant_count);
            r.true_negative.count(s.tn_count, s.variant_count);
            r.error.count_doubled(s.err_count, s.variant_count);
            i += 1;
        }
        proof {
            assert(summaries@.take(n as int) =~= summaries@);
        }
        r
    }
}

} // verus!
