use eval::oracle::{evaluate, EvalResult, EvalResults, RunOutcome};
use eval::summary::{EvalReport, EvalSummary, Metric};

fn run(success: bool, stdout: &str) -> RunOutcome {
    RunOutcome { success, stdout: stdout.as_bytes().to_vec() }
}

#[test]
fn oracle_classifies_the_robust_pair() {
    // Exit 0 with output on the buggy program, exit 0 and silence on the safe
    // one: the detector is right on both sides at once.
    let r = evaluate(&run(true, "warning: use after free"), &run(true, ""));
    assert_eq!(r, EvalResults(EvalResult::TP, EvalResult::TN));
    assert!(r.is_robust());
}

#[test]
fn oracle_is_a_function_of_status_and_emptiness() {
    // The same (exit status, output emptiness) pair always yields the same
    // verdict pair, whatever the output text.
    let a = evaluate(&run(true, "lint A"), &run(true, "lint B"));
    let b = evaluate(&run(true, "other words"), &run(true, "more words"));
    assert_eq!(a, b);
    assert_eq!(a, EvalResults(EvalResult::TP, EvalResult::FP));
}

#[test]
fn oracle_marks_failed_runs_per_side() {
    assert_eq!(
        evaluate(&run(false, "crash"), &run(true, "")),
        EvalResults(EvalResult::Error, EvalResult::TN)
    );
    assert_eq!(
        evaluate(&run(true, ""), &run(false, "")),
        EvalResults(EvalResult::FN, EvalResult::Error)
    );
    assert_eq!(
        evaluate(&run(false, ""), &run(false, "x")),
        EvalResults(EvalResult::Error, EvalResult::Error)
    );
}

#[test]
fn verdict_labels_are_fixed() {
    assert_eq!(EvalResults(EvalResult::TP, EvalResult::TN).label(), "True Positive & Negative");
    assert_eq!(EvalResults(EvalResult::TP, EvalResult::FP).label(), "False Positive");
    assert_eq!(EvalResults(EvalResult::FN, EvalResult::FP).label(), "False Positive & Negative");
    assert_eq!(EvalResults(EvalResult::FN, EvalResult::TN).label(), "False Negative");
    assert_eq!(EvalResults(EvalResult::Error, EvalResult::TN).label(), "Error");
    assert_eq!(EvalResults(EvalResult::TP, EvalResult::Error).label(), "Error");
}

#[test]
fn summary_counts_each_side_once() {
    let mut s = EvalSummary::new(3);
    assert_eq!(s.idx, 3);
    s.count(&EvalResults(EvalResult::TP, EvalResult::TN));
    s.count(&EvalResults(EvalResult::TP, EvalResult::FP));
    s.count(&EvalResults(EvalResult::FN, EvalResult::TN));
    s.count(&EvalResults(EvalResult::Error, EvalResult::Error));
    assert_eq!(s.variant_count, 4);
    assert_eq!(s.robust_count, 1);
    assert_eq!(s.tp_count, 2);
    assert_eq!(s.fn_count, 1);
    assert_eq!(s.fp_count, 1);
    assert_eq!(s.tn_count, 2);
    // A candidate whose both runs failed counts the error twice, once per
    // side.
    assert_eq!(s.err_count, 2);
}

#[test]
fn metric_counts_occurrence_and_exact_cover() {
    let mut m = Metric::new();
    m.count(0, 5);
    assert_eq!((m.normal, m.absolute), (0, 0));
    m.count(3, 5);
    assert_eq!((m.normal, m.absolute), (1, 0));
    m.count(5, 5);
    assert_eq!((m.normal, m.absolute), (2, 1));

    let mut d = Metric::new();
    d.count_doubled(2, 1);
    assert_eq!((d.normal, d.absolute), (1, 1));
    d.count_doubled(1, 1);
    assert_eq!((d.normal, d.absolute), (2, 1));
}

fn summary_with(
    idx: usize,
    variant: usize,
    robust: usize,
    tp: usize,
    fnc: usize,
    fp: usize,
    tn: usize,
    err: usize,
) -> EvalSummary {
    EvalSummary {
        idx,
        variant_count: variant,
        robust_count: robust,
        tp_count: tp,
        fn_count: fnc,
        fp_count: fp,
        tn_count: tn,
        err_count: err,
    }
}

#[test]
fn report_rolls_summaries_up() {
    let summaries = vec![
        summary_with(0, 2, 2, 2, 0, 0, 2, 0),
        summary_with(1, 3, 1, 2, 1, 1, 1, 1),
        summary_with(2, 1, 0, 0, 0, 0, 0, 2),
    ];
    let r = EvalReport::report("tool".as_bytes().to_vec(), &summaries);
    assert_eq!(r.tool, "tool".as_bytes().to_vec());
    // occurrence: in how many patterns the category appeared at all; exact:
    // in how many it covered every variant (twice the variants for errors).
    assert_eq!((r.robust_detection.normal, r.robust_detection.absolute), (2, 1));
    assert_eq!((r.true_positive.normal, r.true_positive.absolute), (2, 1));
    assert_eq!((r.false_negative.normal, r.false_negative.absolute), (1, 0));
    assert_eq!((r.false_positive.normal, r.false_positive.absolute), (1, 0));
    assert_eq!((r.true_negative.normal, r.true_negative.absolute), (2, 1));
    assert_eq!((r.error.normal, r.error.absolute), (2, 1));
}

#[test]
fn report_tallies_never_shrink_as_summaries_fold_in() {
    // Folding the same summaries one by one: both tallies of every category
    // are non-decreasing, and exact never exceeds occurrence.
    let summaries = vec![
        summary_with(0, 2, 2, 2, 0, 0, 2, 0),
        summary_with(1, 3, 1, 2, 1, 1, 1, 1),
        summary_with(2, 1, 0, 0, 0, 0, 0, 2),
    ];
    let mut prev = (0usize, 0usize);
    for k in 0..summaries.len() + 1 {
        let prefix: Vec<EvalSummary> = summaries[..k]
            .iter()
            .map(|s| summary_with(
                s.idx,
                s.variant_count,
                s.robust_count,
                s.tp_count,
                s.fn_count,
                s.fp_count,
                s.tn_count,
                s.err_count,
            ))
            .collect();
        let r = EvalReport::report("t".as_bytes().to_vec(), &prefix);
        let cur = (r.true_positive.normal, r.true_positive.absolute);
        assert!(cur.0 >= prev.0 && cur.1 >= prev.1);
        assert!(cur.1 <= cur.0);
        prev = cur;
    }
}
