//! Tests for the expression-tree-to-stack-command translator.

use minidecaf::compiler::intermediate_code_generator::{Node, NodeKind, generate_intermediate_code};

fn leaf(kind: NodeKind, val: &str) -> Node {
    Node { kind, val: val.to_string(), left: None, right: None }
}

fn node(kind: NodeKind, val: &str, l: Node, r: Node) -> Node {
    Node { kind, val: val.to_string(), left: Some(Box::new(l)), right: Some(Box::new(r)) }
}

#[test]
fn sum_emits_operands_then_operator() {
    // 1 + 2
    let t = node(
        NodeKind::NdOperator,
        "+",
        leaf(NodeKind::NdNum, "1"),
        leaf(NodeKind::NdNum, "2"),
    );
    let cmds = generate_intermediate_code(&vec![Some(t)]);
    assert_eq!(cmds, vec!["PUSH 1", "PUSH 2", "ADD"]);
}

#[test]
fn nested_tree_is_post_order() {
    // (1 - 2) * (6 / 3)
    let t = node(
        NodeKind::NdOperator,
        "*",
        node(
            NodeKind::NdOperator,
            "-",
            leaf(NodeKind::NdNum, "1"),
            leaf(NodeKind::NdNum, "2"),
        ),
        node(
            NodeKind::NdOperator,
            "/",
            leaf(NodeKind::NdNum, "6"),
            leaf(NodeKind::NdNum, "3"),
        ),
    );
    let cmds = generate_intermediate_code(&vec![Some(t)]);
    assert_eq!(
        cmds,
        vec!["PUSH 1", "PUSH 2", "SUB", "PUSH 6", "PUSH 3", "DIV", "MUL"]
    );
}

#[test]
fn comparisons_have_their_own_commands() {
    let mk = |op: &str| {
        node(
            NodeKind::NdComparisonOperator,
            op,
            leaf(NodeKind::NdNum, "1"),
            leaf(NodeKind::NdNum, "2"),
        )
    };
    let cmds = generate_intermediate_code(&vec![
        Some(mk("==")),
        Some(mk("!=")),
        Some(mk("<")),
        Some(mk("<=")),
    ]);
    assert_eq!(
        cmds,
        vec![
            "PUSH 1", "PUSH 2", "EQUAL", "PUSH 1", "PUSH 2", "NONEQUAL", "PUSH 1", "PUSH 2",
            "LT", "PUSH 1", "PUSH 2", "ELT",
        ]
    );
}

#[test]
fn variables_load_by_name_and_gaps_are_skipped() {
    let cmds = generate_intermediate_code(&vec![
        None,
        Some(leaf(NodeKind::NdVariable, "x")),
        None,
    ]);
    assert_eq!(cmds, vec!["LOAD x"]);
}

#[test]
fn empty_input_emits_nothing() {
    let cmds = generate_intermediate_code(&vec![]);
    assert!(cmds.is_empty());
}
