use eval::eval_tree::{EvalNode, EvalTree, TreeError};
use eval::oracle::{EvalResult, EvalResults};

fn bytes(s: &str) -> Vec<u8> {
    s.as_bytes().to_vec()
}

#[test]
fn test() {
    let mut tree = EvalTree::new();
    let root = EvalNode::new(bytes("Root"), EvalResults(EvalResult::TP, EvalResult::TN));
    tree.set_root(root);

    tree.add_child(
        &bytes("Root"),
        bytes("Child1"),
        EvalResults(EvalResult::TP, EvalResult::TN),
    )
    .unwrap();
    tree.add_child(
        &bytes("Root"),
        bytes("Child2"),
        EvalResults(EvalResult::TP, EvalResult::FP),
    )
    .unwrap();
    tree.add_child(
        &bytes("Child1"),
        bytes("GrandChild1"),
        EvalResults(EvalResult::FN, EvalResult::TN),
    )
    .unwrap();
    tree.add_child(
        &bytes("Child2"),
        bytes("GrandChild2"),
        EvalResults(EvalResult::FN, EvalResult::FP),
    )
    .unwrap();

    let dot_content = tree.to_dot();
    println!("DOT Representation:\n{}", String::from_utf8(dot_content).unwrap());
    assert_eq!(tree.count_nodes(), 5);
}

#[test]
fn to_dot_draws_nodes_and_edges_in_arena_order() {
    let mut tree = EvalTree::new();
    tree.set_root(EvalNode::new(bytes("r"), EvalResults(EvalResult::TP, EvalResult::TN)));
    tree.add_child(&bytes("r"), bytes("c"), EvalResults(EvalResult::TP, EvalResult::FP))
        .unwrap();
    let dot = String::from_utf8(tree.to_dot()).unwrap();
    let expected = "digraph EvalTree {\nnode [shape=ellipse];\nnode0 [label=\"r\" style=filled fillcolor=green];\nnode1 [label=\"c\" style=filled fillcolor=blue];\nnode0 -> node1;\n}";
    assert_eq!(dot, expected);
}

#[test]
fn verdict_colors_follow_the_taxonomy() {
    let mut tree = EvalTree::new();
    tree.set_root(EvalNode::new(bytes("a"), EvalResults(EvalResult::Error, EvalResult::TN)));
    tree.add_child(&bytes("a"), bytes("b"), EvalResults(EvalResult::FN, EvalResult::FP))
        .unwrap();
    tree.add_child(&bytes("a"), bytes("c"), EvalResults(EvalResult::FN, EvalResult::TN))
        .unwrap();
    let dot = String::from_utf8(tree.to_dot()).unwrap();
    assert!(dot.contains("node0 [label=\"a\" style=filled fillcolor=red];"));
    assert!(dot.contains("node1 [label=\"b\" style=filled fillcolor=gray];"));
    assert!(dot.contains("node2 [label=\"c\" style=filled fillcolor=orange];"));
}

#[test]
fn add_child_under_missing_parent_fails() {
    let mut tree = EvalTree::new();
    tree.set_root(EvalNode::new(bytes("Root"), EvalResults(EvalResult::TP, EvalResult::TN)));
    let r = tree.add_child(
        &bytes("NoSuchNode"),
        bytes("Child"),
        EvalResults(EvalResult::TP, EvalResult::TN),
    );
    assert_eq!(r, Err(TreeError::ParentNotFound));
    assert_eq!(TreeError::ParentNotFound.message(), "Parent node not found");
    assert_eq!(tree.count_nodes(), 1);
}

#[test]
fn get_node_finds_by_name() {
    let mut tree = EvalTree::new();
    tree.set_root(EvalNode::new(bytes("Root"), EvalResults(EvalResult::TP, EvalResult::TN)));
    tree.add_child(&bytes("Root"), bytes("Kid"), EvalResults(EvalResult::FN, EvalResult::TN))
        .unwrap();
    assert_eq!(tree.get_node(&bytes("Root")), Some(0));
    assert_eq!(tree.get_node(&bytes("Kid")), Some(1));
    assert_eq!(tree.get_node(&bytes("Gone")), None);
}
