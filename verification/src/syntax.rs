//! A syntax tree held as plain values: the nodes in breadth-first order,
//! each with its kind, byte range, rows, parent and the contiguous block of
//! its children.
use vstd::prelude::*;
use vstd::utf8::*;

use crate::text::newline_count;

verus! {

/// One node of a syntax tree.
#[derive(Debug, Clone)]
pub struct SyntaxNode {
    pub kind: String,
    pub start_byte: usize,
    pub end_byte: usize,
    pub start_row: usize,
    pub end_row: usize,
    pub parent: Option<usize>,
    pub first_child: usize,
    pub child_count: usize,
}

/// A syntax tree whose root is `nodes[0]`.
#[derive(Debug, Clone)]
pub struct SyntaxTree {
    pub nodes: Vec<SyntaxNode>,
}

/// Node `n` spans the bytes `start..end`.
pub open spec fn covers(n: SyntaxNode, start: int, end: int) -> bool {
    n.start_byte <= start && end <= n.end_byte
}

/// The byte range and rows of a node fit the text it was parsed from: the
/// range lies between character boundaries of the text, and the rows run
/// forward within the text's lines.
pub open spec fn node_fits(n: SyntaxNode, text: Seq<u8>) -> bool {
    &&& n.start_byte <= n.end_byte <= text.len()
    &&& is_char_boundary(text, n.start_byte as int)
    &&& is_char_boundary(text, n.end_byte as int)
    &&& n.start_row <= n.end_row <= newline_count(text)
    &&& n.start_row < usize::MAX
    &&& n.end_row < usize::MAX
}

/// The children of node `i` follow it and name it as their parent, and
/// every parent precedes its children.
pub open spec fn node_linked(nodes: Seq<SyntaxNode>, i: int) -> bool {
    &&& nodes[i].child_count > 0 ==> i < nodes[i].first_child && nodes[i].first_child
        + nodes[i].child_count <= nodes.len()
    &&& forall|c: int|
        nodes[i].first_child <= c < nodes[i].first_child + nodes[i].child_count ==> #[trigger] nodes[c].parent
            == Some(i as usize)
    &&& nodes[i].parent matches Some(p) ==> p < i
}

/// Node `i` lies inside its parent.
pub open spec fn node_nested(nodes: Seq<SyntaxNode>, i: int) -> bool {
    nodes[i].parent matches Some(p) ==> nodes[p as int].start_byte <= nodes[i].start_byte
        && nodes[i].end_byte <= nodes[p as int].end_byte
}

/// Every node is linked to its parent and children.
pub open spec fn tree_linked(nodes: Seq<SyntaxNode>) -> bool {
    &&& nodes.len() > 0
    &&& nodes[0].parent is None
    &&& forall|i: int| 0 <= i < nodes.len() ==> #[trigger] node_linked(nodes, i)
}

/// The nodes form a tree rooted at `nodes[0]` over `text`.
pub open spec fn tree_well_formed(nodes: Seq<SyntaxNode>, text: Seq<u8>) -> bool {
    &&& tree_linked(nodes)
    &&& forall|i: int| 0 <= i < nodes.len() ==> #[trigger] node_fits(nodes[i], text)
    &&& forall|i: int| 0 <= i < nodes.len() ==> #[trigger] node_nested(nodes, i)
}

impl SyntaxTree {
    /// The tree is well formed over `text`.
    pub open spec fn well_formed(&self, text: Seq<u8>) -> bool {
        tree_well_formed(self.nodes@, text)
    }
}

/// The first child of node `i`, from its `k`-th on, that spans `start..end`.
pub open spec fn first_covering_child(
    nodes: Seq<SyntaxNode>,
    i: int,
    k: int,
    start: int,
    end: int,
) -> Option<int>
    decreases nodes[i].child_count - k,
{
    if k < 0 || k >= nodes[i].child_count {
        None
    } else if covers(nodes[nodes[i].first_child + k], start, end) {
        Some(nodes[i].first_child + k)
    } else {
        first_covering_child(nodes, i, k + 1, start, end)
    }
}

/// The node reached from node `i` by descending, while some child spans
/// `start..end`, into the first such child.
pub open spec fn descend(nodes: Seq<SyntaxNode>, i: int, start: int, end: int) -> int
    decreases nodes.len() - i,
{
    match first_covering_child(nodes, i, 0, start, end) {
        Some(c) => if i < c < nodes.len() {
            descend(nodes, c, start, end)
        } else {
            i
        },
        None => i,
    }
}

/// The node that spans `start..end` most narrowly along first children,
/// searching from node `i`; `None` when node `i` itself does not span it.
pub open spec fn covering_node(
    nodes: Seq<SyntaxNode>,
    i: int,
    start: int,
    end: int,
) -> Option<int> {
    if covers(nodes[i], start, end) {
        Some(descend(nodes, i, start, end))
    } else {
        None
    }
}

/// The nearest node, from node `i` up through its ancestors, whose kind is
/// one of `kinds`.
pub open spec fn enclosing_of_kind(
    nodes: Seq<SyntaxNode>,
    i: int,
    kinds: Seq<Seq<char>>,
) -> Option<int>
    decreases i,
{
    if i < 0 || i >= nodes.len() {
        None
    } else if kinds.contains(nodes[i].kind@) {
        Some(i)
    } else {
        match nodes[i].parent {
            Some(p) => if p < i {
                enclosing_of_kind(nodes, p as int, kinds)
            } else {
                None
            },
            None => None,
        }
    }
}

/// The first covering child found from the `k`-th child on is a child of node
/// `i` that spans the range.
pub proof fn lemma_first_covering_child(
    nodes: Seq<SyntaxNode>,
    i: int,
    k: int,
    start: int,
    end: int,
)
    requires
        0 <= i < nodes.len(),
        node_linked(nodes, i),
    ensures
        first_covering_child(nodes, i, k, start, end) matches Some(c) ==> {
            &&& nodes[i].first_child <= c < nodes[i].first_child + nodes[i].child_count
            &&& i < c < nodes.len()
            &&& covers(nodes[c], start, end)
        },
    decreases nodes[i].child_count - k,
{
    if 0 <= k < nodes[i].child_count && !covers(nodes[nodes[i].first_child + k], start, end) {
        lemma_first_covering_child(nodes, i, k + 1, start, end);
    }
}

/// Descending from a node that spans a range ends at a node that spans it.
pub proof fn lemma_descend_covers(nodes: Seq<SyntaxNode>, i: int, start: int, end: int)
    requires
        tree_linked(nodes),
        0 <= i < nodes.len(),
        covers(nodes[i], start, end),
    ensures
        0 <= descend(nodes, i, start, end) < nodes.len(),
        covers(nodes[descend(nodes, i, start, end)], start, end),
    decreases nodes.len() - i,
{
    lemma_first_covering_child(nodes, i, 0, start, end);
    if let Some(c) = first_covering_child(nodes, i, 0, start, end) {
        lemma_descend_covers(nodes, c, start, end);
    }
}

/// Walking up from a node that spans a range, the nearest node of one of
/// `kinds` spans it too, since every node lies inside its parent.
pub proof fn lemma_enclosing_covers(
    nodes: Seq<SyntaxNode>,
    text: Seq<u8>,
    i: int,
    kinds: Seq<Seq<char>>,
    start: int,
    end: int,
)
    requires
        tree_well_formed(nodes, text),
        0 <= i < nodes.len(),
        covers(nodes[i], start, end),
    ensures
        enclosing_of_kind(nodes, i, kinds) matches Some(m) ==> {
            &&& 0 <= m < nodes.len()
            &&& covers(nodes[m], start, end)
            &&& kinds.contains(nodes[m].kind@)
        },
    decreases i,
{
    assert(node_linked(nodes, i));
    assert(node_nested(nodes, i));
    if !kinds.contains(nodes[i].kind@) {
        if let Some(p) = nodes[i].parent {
            lemma_enclosing_covers(nodes, text, p as int, kinds, start, end);
        }
    }
}

/// Finds the node that spans `start..end` most narrowly, descending from
/// node `i` into the first child that spans it.
pub fn find_covering_node(
    tree: &SyntaxTree,
    i: usize,
    start: usize,
    end: usize,
) -> (res: Option<usize>)
    requires
        tree_linked(tree.nodes@),
        i < tree.nodes@.len(),
    ensures
        match res {
            Some(n) => covering_node(tree.nodes@, i as int, start as int, end as int) == Some(n as int)
                && n < tree.nodes@.len(),
            None => covering_node(tree.nodes@, i as int, start as int, end as int) is None,
        },
    decreases tree.nodes@.len() - i,
{
    let ghost nodes = tree.nodes@;
    assert(node_linked(nodes, i as int));
    let node = &tree.nodes[i];
    if node.start_byte > start || node.end_byte < end {
        return None;
    }
    let mut k: usize = 0;
    while k < node.child_count
        invariant
            nodes == tree.nodes@,
            i < nodes.len(),
            node == nodes[i as int],
            node_linked(nodes, i as int),
            tree_linked(tree.nodes@),
            covers(nodes[i as int], start as int, end as int),
            0 <= k <= node.child_count,
            first_covering_child(nodes, i as int, 0, start as int, end as int)
                == first_covering_child(nodes, i as int, k as int, start as int, end as int),
        decreases node.child_count - k,
    {
        assert(node.first_child + node.child_count <= tree.nodes.len());
        let c = node.first_child + k;
        match find_covering_node(tree, c, start, end) {
            Some(m) => {
                assert(first_covering_child(nodes, i as int, k as int, start as int, end as int) == Some(c as int));
                return Some(m);
            },
            None => {
                assert(first_covering_child(nodes, i as int, k as int, start as int, end as int)
                    == first_covering_child(nodes, i as int, k + 1, start as int, end as int));
            },
        }
        k = k + 1;
    }
    Some(i)
}

} // verus!
