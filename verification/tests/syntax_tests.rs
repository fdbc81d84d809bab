use search_mesh::probe::{find_probe_hit, probe_syntax_tree, squeeze_syntax_tree};
use search_mesh::syntax::{find_covering_node, SyntaxNode, SyntaxTree};

fn node(
    kind: &str,
    bytes: (usize, usize),
    rows: (usize, usize),
    parent: Option<usize>,
    children: (usize, usize),
) -> SyntaxNode {
    SyntaxNode {
        kind: kind.to_string(),
        start_byte: bytes.0,
        end_byte: bytes.1,
        start_row: rows.0,
        end_row: rows.1,
        parent,
        first_child: children.0,
        child_count: children.1,
    }
}

/// "fn a() {}\nfn b() {}\n": a file with two functions, each with a name.
fn two_functions() -> SyntaxTree {
    SyntaxTree {
        nodes: vec![
            node("source_file", (0, 20), (0, 2), None, (1, 2)),
            node("function_item", (0, 9), (0, 0), Some(0), (3, 1)),
            node("function_item", (10, 19), (1, 1), Some(0), (4, 1)),
            node("identifier", (3, 4), (0, 0), Some(1), (0, 0)),
            node("identifier", (13, 14), (1, 1), Some(2), (0, 0)),
        ],
    }
}

const SOURCE: &str = "fn a() {}\nfn b() {}\n";

#[test]
fn descends_into_the_first_covering_child() {
    let tree = two_functions();
    assert_eq!(find_covering_node(&tree, 0, 13, 14), Some(4));
    assert_eq!(find_covering_node(&tree, 0, 0, 2), Some(1));
    assert_eq!(find_covering_node(&tree, 0, 5, 12), Some(0));
    assert_eq!(find_covering_node(&tree, 1, 13, 14), None);
}

#[test]
fn probe_walks_up_to_the_requested_kind() {
    let tree = two_functions();
    let kinds = vec!["function_item".to_string()];
    assert_eq!(find_probe_hit(&tree, SOURCE, "b", &kinds), Some(2));
    let answer = probe_syntax_tree(&tree, SOURCE, "b", &kinds);
    assert!(answer.is_valid);
    assert_eq!(answer.node_type.as_deref(), Some("function_item"));
    assert_eq!(answer.start_line, Some(2));
    assert_eq!(answer.end_line, Some(2));
    let missing = probe_syntax_tree(&tree, SOURCE, "b", &vec!["struct_item".to_string()]);
    assert!(!missing.is_valid);
    assert_eq!(missing.node_type, None);
}

#[test]
fn squeeze_cuts_the_node_text() {
    let tree = two_functions();
    let kinds = vec!["function_item".to_string()];
    let block = squeeze_syntax_tree(&tree, &"x.rs".to_string(), SOURCE, "b", &kinds)
        .expect("block found");
    assert_eq!(block.text, "fn b() {}");
    assert_eq!(block.file, "x.rs");
    assert_eq!(block.start_line, 2);
    assert!(squeeze_syntax_tree(&tree, &"x.rs".to_string(), SOURCE, "zz", &kinds).is_none());
}
