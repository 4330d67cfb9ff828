//! The oracle classifier: it maps the raw outcomes of running the detector on
//! the positive and negative programs of one candidate to a verdict pair.

use vstd::prelude::*;

verus! {

/// The outcome of one detector run, as the classifier reads it: whether the
/// process exited successfully, and the bytes it wrote to standard output.
pub struct RunOutcome {
    pub success: bool,
    pub stdout: Vec<u8>,
}

/// One side's verdict. The positive side can only be `Error`, `TP` or `FN`;
/// the negative side only `Error`, `FP` or `TN`.
#[derive(Debug, Clone, Copy, PartialEq, Eq, Structural)]
pub enum EvalResult {
    /// The detector process itself failed on this program.
    Error,
    /// The detector flagged the real bug.
    TP,
    /// The detector flagged a bug where there is none.
    FP,
    /// The detector missed the real bug.
    FN,
    /// The detector was correctly silent.
    TN,
}

/// The verdict pair for one candidate: the positive-case verdict first, the
/// negative-case verdict second.
#[derive(Debug, Clone, Copy, PartialEq, Eq, Structural)]
pub struct EvalResults(pub EvalResult, pub EvalResult);

impl EvalResults {
    /// Only these pairs are reachable from the classifier.
    pub open spec fn wf(self) -> bool {
        (self.0 is Error || self.0 is TP || self.0 is FN) && (self.1 is Error || self.1 is FP
            || self.1 is TN)
    }

    /// The one pair on which the search keeps expanding a candidate: the
    /// detector is right on both the buggy and the safe program at once.
    pub open spec fn robust(self) -> bool {
        self.0 is TP && self.1 is TN
    }

    /// Whether the search keeps expanding a candidate with this verdict pair.
    pub fn is_robust(&self) -> (r: bool)
        ensures
            r == self.robust(),
    {
        match (self.0, self.1) {
            (EvalResult::TP, EvalResult::TN) => true,
            _ => false,
        }
    }

    /// The fixed label under which this verdict pair is reported.
    pub fn label(&self) -> (r: &'static str)
        requires
            self.wf(),
        ensures
            (self.0 is Error || self.1 is Error) ==> r@ == "Error"@,
            (self.0 is TP && self.1 is TN) ==> r@ == "True Positive & Negative"@,
            (self.0 is TP && self.1 is FP) ==> r@ == "False Positive"@,
            (self.0 is FN && self.1 is FP) ==> r@ == "False Positive & Negative"@,
            (self.0 is FN && self.1 is TN) ==> r@ == "False Negative"@,
    {
        match (self.0, self.1) {
            (EvalResult::Error, _) | (_, EvalResult::Error) => "Error",
            (EvalResult::TP, EvalResult::TN) => "True Positive & Negative",
            (EvalResult::TP, EvalResult::FP) => "False Positive",
            (EvalResult::FN, EvalResult::FP) => "False Positive & Negative",
            (EvalResult::FN, EvalResult::TN) => "False Negative",
            _ => "Error",
        }
    }
}

/// The positive side's verdict as a function of the run's exit status and of
/// whether its standard output was empty.
pub open spec fn classify_pos(success: bool, stdout_empty: bool) -> EvalResult {
    if !success {
        EvalResult::Error
    } else if !stdout_empty {
        EvalResult::TP
    } else {
        EvalResult::FN
    }
}

/// The negative side's verdict as a function of the run's exit status and of
/// whether its standard output was empty.
pub open spec fn classify_neg(success: bool, stdout_empty: bool) -> EvalResult {
    if !success {
        EvalResult::Error
    } else if !stdout_empty {
        EvalResult::FP
    } else {
        EvalResult::TN
    }
}

/// The verdict pair that the two raw outcomes are classified into.
pub open spec fn classified(pos: RunOutcome, neg: RunOutcome) -> EvalResults {
    EvalResults(
        classify_pos(pos.success, pos.stdout@.len() == 0),
        classify_neg(neg.success, neg.stdout@.len() == 0),
    )
}

/// The oracle classifier. A side whose process failed is `Error`; otherwise a
/// non-empty standard output means the detector flagged a bug there.
pub fn evaluate(pos: &RunOutcome, neg: &RunOutcome) -> (r: EvalResults)
    ensures
        r == classified(*pos, *neg),
        r.wf(),
{
    let p = if !pos.success {
        EvalResult::Error
    } else if pos.stdout.len() > 0 {
        EvalResult::TP
    } else {
        EvalResult::FN
    };
    let n = if !neg.success {
        EvalResult::Error
    } else if neg.stdout.len() > 0 {
        EvalResult::FP
    } else {
        EvalResult::TN
    };
    EvalResults(p, n)
}

/// The oracle classifier is a pure function of the exit statuses and of
/// standard-output emptiness: two run pairs that agree on those four facts are
/// classified alike. A successful flagged positive run beside a successful
/// silent negative run is classified (`TP`, `TN`).
pub proof fn lemma_oracle_pure(pos1: RunOutcome, neg1: RunOutcome, pos2: RunOutcome, neg2: RunOutcome)
    ensures
        (pos1.success == pos2.success && neg1.success == neg2.success && (pos1.stdout@.len() == 0)
            == (pos2.stdout@.len() == 0) && (neg1.stdout@.len() == 0) == (neg2.stdout@.len() == 0))
            ==> classified(pos1, neg1) == classified(pos2, neg2),
        pos1.success && pos1.stdout@.len() > 0 && neg1.success && neg1.stdout@.len() == 0
            ==> classified(pos1, neg1) == EvalResults(EvalResult::TP, EvalResult::TN),
{
}

} // verus!
