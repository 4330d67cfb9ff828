use eval::config::{Case, Config, Flow, Testcase};
use eval::oracle::RunOutcome;
use eval::search::Search;
use eval::{EvalError, Evaluator, Executor};

fn bytes(s: &str) -> Vec<u8> {
    s.as_bytes().to_vec()
}

fn sample_testcase() -> Testcase {
    Testcase {
        desc: bytes("a known bug"),
        tags: vec![],
        features: vec![],
        ty: bytes("u32"),
        val: bytes("0u32"),
        pos: Case { src: bytes("bug()"), code: bytes("fn main() { SOURCE!() }") },
        neg: Case { src: bytes("safe()"), code: bytes("fn main() { SOURCE!() }") },
    }
}

fn noop_flow() -> Flow {
    Flow { name: bytes("No-op wrapper"), code: bytes("wrap(SOURCE!())") }
}

fn flagged() -> RunOutcome {
    RunOutcome { success: true, stdout: bytes("bug found") }
}

fn silent() -> RunOutcome {
    RunOutcome { success: true, stdout: Vec::new() }
}

#[test]
fn end_to_end_single_flow_single_expansion() {
    // One pattern, one no-op flow without nesting sites, both bounds 1, and a
    // detector that always flags the positive program and never the negative
    // one: the seed is robust, exactly one expansion is produced at length 1,
    // its verdict is robust too, and it is not expanded further.
    let mut s = Search::new(sample_testcase(), vec![noop_flow()], 1, 1, 0);

    let (pos, neg) = s.next_programs().expect("the seed awaits evaluation");
    assert_eq!(pos.code, bytes("fn main() { bug() }"));
    assert_eq!(neg.code, bytes("fn main() { safe() }"));
    s.record(&flagged(), &silent());
    assert!(!s.is_done());

    let (pos, neg) = s.next_programs().expect("one expansion of the seed");
    // The candidate at length 1 embeds the seed placeholder in the flow's
    // shape; each case resolves it to its own source and wraps the carrier as
    // a block.
    let carrier = "wrap({\nSOURCE!()\n})";
    let pos_block = format!("{{\n{}\n}}", carrier.replace("SOURCE!()", "bug()"));
    let neg_block = format!("{{\n{}\n}}", carrier.replace("SOURCE!()", "safe()"));
    assert_eq!(
        String::from_utf8(pos.code).unwrap(),
        "fn main() { SOURCE!() }".replace("SOURCE!()", pos_block.trim())
    );
    assert_eq!(
        String::from_utf8(neg.code).unwrap(),
        "fn main() { SOURCE!() }".replace("SOURCE!()", neg_block.trim())
    );
    s.record(&flagged(), &silent());
    assert!(s.is_done());
    assert!(s.next_programs().is_none());

    assert_eq!(s.tree.count_nodes(), 2);
    // The identities encode discovery index, length and depth, and the child's
    // length counts one flow application from the seed.
    assert_eq!(s.tree.nodes[0].name, bytes("0000-0-0"));
    assert_eq!(s.tree.nodes[1].name, bytes("0001-1-0"));
    assert_eq!(s.summary.variant_count, 2);
    assert_eq!(s.summary.robust_count, 2);
    assert_eq!(s.summary.tp_count, 2);
    assert_eq!(s.summary.tn_count, 2);
    assert_eq!(s.summary.fp_count, 0);
    assert_eq!(s.summary.fn_count, 0);
    assert_eq!(s.summary.err_count, 0);
}

#[test]
fn non_robust_seed_stops_the_search_at_one_node() {
    // The detector misses the bare bug: the tree keeps only the root and no
    // expansion is ever attempted.
    let mut s = Search::new(sample_testcase(), vec![noop_flow()], 3, 3, 1);
    assert!(!s.is_done());
    s.record(&silent(), &silent());
    assert!(s.is_done());
    assert_eq!(s.tree.count_nodes(), 1);
    assert_eq!(s.summary.variant_count, 1);
    assert_eq!(s.summary.robust_count, 0);
    assert_eq!(s.summary.fn_count, 1);
    assert_eq!(s.summary.tn_count, 1);
}

#[test]
fn search_explores_all_flows_breadth_first() {
    // Two flows, length bound 2: the seed yields two children, each child two
    // grandchildren; grandchildren reach the bound and close. 1 + 2 + 4 nodes.
    let flows = vec![
        Flow { name: bytes("a"), code: bytes("a(SOURCE!())") },
        Flow { name: bytes("b"), code: bytes("b(SOURCE!())") },
    ];
    let mut s = Search::new(sample_testcase(), flows, 2, 2, 0);
    let mut evaluations = 0usize;
    while !s.is_done() {
        let _programs = s.next_programs().unwrap();
        s.record(&flagged(), &silent());
        evaluations += 1;
        assert!(evaluations <= 7, "the bounded search must stop");
    }
    assert_eq!(evaluations, 7);
    assert_eq!(s.tree.count_nodes(), 7);
    assert_eq!(s.summary.variant_count, 7);
    assert_eq!(s.summary.robust_count, 7);
}

#[test]
fn identities_in_the_tree_are_unique() {
    let flows = vec![
        Flow { name: bytes("a"), code: bytes("a(SOURCE!())") },
        Flow { name: bytes("b"), code: bytes("b(SOURCE!())") },
    ];
    let mut s = Search::new(sample_testcase(), flows, 2, 2, 0);
    while !s.is_done() {
        s.next_programs().unwrap();
        s.record(&flagged(), &silent());
    }
    let mut names: Vec<Vec<u8>> = Vec::new();
    for i in 0..s.tree.count_nodes() {
        let name = s.tree.nodes[i].name.clone();
        assert!(!names.contains(&name), "two nodes share an identity");
        names.push(name);
    }
}

#[test]
fn executor_name_is_the_file_stem() {
    assert_eq!(
        Executor::new(bytes("../tools/shell/Safedrop"), bytes("./output/harness")).name(),
        bytes("Safedrop")
    );
    assert_eq!(Executor::new(bytes("detector.tar.gz"), bytes("h")).name(), bytes("detector.tar"));
    assert_eq!(Executor::new(bytes(".hidden"), bytes("h")).name(), bytes(".hidden"));
    assert_eq!(Executor::new(bytes("/a/b/tool.exe"), bytes("h")).name(), bytes("tool"));
    // Trailing separators and trailing current-directory components are
    // ignored, as the platform ignores them.
    assert_eq!(Executor::new(bytes("a/b/"), bytes("h")).name(), bytes("b"));
    assert_eq!(Executor::new(bytes("/usr/bin/"), bytes("h")).name(), bytes("bin"));
    assert_eq!(Executor::new(bytes("foo/."), bytes("h")).name(), bytes("foo"));
    assert_eq!(Executor::new(bytes("a//b.x//"), bytes("h")).name(), bytes("b"));
    // These expectations agree with the platform's own reading of the paths.
    for p in ["a/b/", "/usr/bin/", "foo/.", "a//b.x//", "../t/Safedrop", ".hidden"] {
        let expected = std::path::Path::new(p).file_stem().unwrap();
        assert_eq!(
            Executor::new(bytes(p), bytes("h")).name(),
            expected.to_string_lossy().as_bytes().to_vec()
        );
    }
}

#[test]
fn executor_without_a_file_name_has_no_stem() {
    // Empty paths, the bare root and parent-directory endings carry no file
    // name; the platform agrees.
    for p in ["", "/", "//", "..", "a/..", "a/../", "."] {
        let ex = Executor::new(bytes(p), bytes("h"));
        assert!(!ex.has_file_name(), "{:?} must have no file name", p);
        assert!(std::path::Path::new(p).file_stem().is_none());
    }
    assert!(Executor::new(bytes("a/b/"), bytes("h")).has_file_name());
}

#[test]
fn evaluator_refuses_an_out_of_range_index() {
    let config = Config::new(vec![sample_testcase()], vec![noop_flow()], 2, 3);
    let ev = Evaluator::new(Executor::new(bytes("tool"), bytes("harness")), config, vec![]);
    match ev.evaluate(1) {
        Err(e) => {
            assert_eq!(e, EvalError::IndexOutOfRange);
            assert_eq!(e.message(), "Index is out of bounds");
        },
        Ok(_) => panic!("index 1 is out of range for one pattern"),
    }
    assert!(ev.evaluate(0).is_ok());
}

#[test]
fn evaluator_targets_default_to_all_patterns() {
    let config = Config::new(vec![sample_testcase(), sample_testcase()], vec![noop_flow()], 2, 3);
    let ev = Evaluator::new(Executor::new(bytes("tool"), bytes("h")), config, vec![]);
    assert_eq!(ev.target_indices(), vec![0, 1]);

    let config = Config::new(vec![sample_testcase(), sample_testcase()], vec![noop_flow()], 2, 3);
    let ev = Evaluator::new(Executor::new(bytes("tool"), bytes("h")), config, vec![1]);
    assert_eq!(ev.target_indices(), vec![1]);
}

#[test]
fn evaluator_seeds_a_search_with_the_configured_bounds() {
    let config = Config::new(vec![sample_testcase()], vec![noop_flow()], 2, 3);
    let ev = Evaluator::new(Executor::new(bytes("tool"), bytes("h")), config, vec![]);
    let mut s = ev.evaluate(0).unwrap();
    assert_eq!(s.max_length, 2);
    assert_eq!(s.max_depth, 3);
    assert_eq!(s.summary.idx, 0);
    // The seed is pending; a failed positive run closes the root as an error.
    s.record(&RunOutcome { success: false, stdout: Vec::new() }, &silent());
    assert!(s.is_done());
    assert_eq!(s.summary.err_count, 1);
    assert_eq!(s.summary.tn_count, 1);
}
