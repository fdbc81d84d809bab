//! Parsing with tree-sitter, and copying the tree it builds into a
//! [`SyntaxTree`] of plain values.
//!
//! The copy lists the nodes breadth first: the root, then, node after node
//! in that order, the children of each in their order. [`walk_queue`]
//! states that order over the paths of child indices that name tree-sitter's
//! nodes, and [`parsed_nodes`] states that a list of nodes is the copy of
//! tree-sitter's tree of a text.
use vstd::prelude::*;
use vstd::string::*;
use vstd::utf8::*;

use crate::parsed::{
    javascript_grammar, new_parser, node_child, node_child_count, node_end_byte, node_end_row,
    node_has_error, node_kind, node_start_byte, node_start_row, parse_text, python_grammar,
    root_node, rust_grammar, set_parser_language, ts_child_count, ts_end_byte, ts_end_row,
    ts_has_error, ts_kind, ts_parses, ts_start_byte, ts_start_row, typescript_grammar, Grammar,
    SourceNode, SourceTree,
};
use crate::probe::{ProbeError, SupportedLanguage};
use crate::syntax::{node_fits, node_linked, node_nested, SyntaxNode, SyntaxTree};
use crate::text::{count_newlines, newline_count};

verus! {

broadcast use vstd::utf8::group_utf8_lib;

/// The nodes of tree-sitter's tree of `text` met by a breadth-first walk
/// once it has visited `i` of them: each named by its path of child indices
/// from the root, with the place of its parent in the walk. The walk starts
/// from the root alone and, visiting a node, appends its children in order.
pub open spec fn walk_queue(language: SupportedLanguage, text: Seq<u8>, i: nat) -> Seq<
    (Seq<u32>, Option<usize>),
>
    decreases i,
{
    if i == 0 {
        seq![(Seq::<u32>::empty(), None::<usize>)]
    } else {
        let queue = walk_queue(language, text, (i - 1) as nat);
        if i - 1 < queue.len() {
            let path = queue[i - 1].0;
            queue + Seq::new(
                ts_child_count(language, text, path) as nat,
                |k: int| (path.push(k as u32), Some((i - 1) as usize)),
            )
        } else {
            queue
        }
    }
}

/// The node at place `i` of the walk fits `text` and lies inside its parent:
/// its byte range lies in the text between character boundaries, its rows
/// run forward and stay within the text's lines.
pub open spec fn entry_fits(
    language: SupportedLanguage,
    text: Seq<u8>,
    queue: Seq<(Seq<u32>, Option<usize>)>,
    i: int,
) -> bool {
    let path = queue[i].0;
    let start = ts_start_byte(language, text, path);
    let end = ts_end_byte(language, text, path);
    &&& start <= end <= text.len()
    &&& is_char_boundary(text, start as int)
    &&& is_char_boundary(text, end as int)
    &&& ts_start_row(language, text, path) <= ts_end_row(language, text, path)
    &&& ts_end_row(language, text, path) <= newline_count(text)
    &&& ts_end_row(language, text, path) < usize::MAX
    &&& queue[i].1 matches Some(p) ==> ts_start_byte(language, text, queue[p as int].0) <= start
        && end <= ts_end_byte(language, text, queue[p as int].0)
}

/// Tree-sitter's tree of `text` is finite, and each of its nodes fits.
pub open spec fn ts_tree_fits(language: SupportedLanguage, text: Seq<u8>) -> bool {
    exists|n: nat|
        #![trigger walk_queue(language, text, n)]
        walk_queue(language, text, n).len() == n && forall|i: int|
            0 <= i < n ==> #[trigger] entry_fits(language, text, walk_queue(language, text, n), i)
}

/// Tree-sitter gives a tree for `text`, and that tree fits it.
pub open spec fn parse_fits(language: SupportedLanguage, text: Seq<u8>) -> bool {
    ts_parses(language, text) && ts_tree_fits(language, text)
}

/// `n` is the copy of the node at `entry` of the walk, whose children come
/// at place `first_child` of the walk.
pub open spec fn copies_node(
    n: SyntaxNode,
    language: SupportedLanguage,
    text: Seq<u8>,
    entry: (Seq<u32>, Option<usize>),
    first_child: int,
) -> bool {
    let path = entry.0;
    &&& n.kind@ == ts_kind(language, text, path)
    &&& n.start_byte == ts_start_byte(language, text, path)
    &&& n.end_byte == ts_end_byte(language, text, path)
    &&& n.start_row == ts_start_row(language, text, path)
    &&& n.end_row == ts_end_row(language, text, path)
    &&& n.child_count == ts_child_count(language, text, path)
    &&& n.parent == entry.1
    &&& n.first_child == first_child
}

/// `nodes` is the breadth-first copy of the whole of tree-sitter's tree of
/// `text`.
pub open spec fn parsed_nodes(nodes: Seq<SyntaxNode>, language: SupportedLanguage, text: Seq<u8>) -> bool {
    &&& walk_queue(language, text, nodes.len()).len() == nodes.len()
    &&& forall|i: int|
        0 <= i < nodes.len() ==> #[trigger] copies_node(
            nodes[i],
            language,
            text,
            walk_queue(language, text, nodes.len())[i],
            walk_queue(language, text, i as nat).len() as int,
        )
}

/// A walk that has met more nodes than it visited meets, later on, the
/// same nodes first.
pub proof fn lemma_walk_prefix(language: SupportedLanguage, text: Seq<u8>, i: nat, j: nat)
    requires
        i <= j,
    ensures
        walk_queue(language, text, i).len() <= walk_queue(language, text, j).len(),
        forall|c: int|
            0 <= c < walk_queue(language, text, i).len() ==> #[trigger] walk_queue(language, text, j)[c]
                == walk_queue(language, text, i)[c],
    decreases j - i,
{
    if i < j {
        lemma_walk_prefix(language, text, i, (j - 1) as nat);
        let q = walk_queue(language, text, (j - 1) as nat);
        if j - 1 < q.len() {
            let path = q[j - 1].0;
            let children = Seq::new(
                ts_child_count(language, text, path) as nat,
                |k: int| (path.push(k as u32), Some((j - 1) as usize)),
            );
            assert(walk_queue(language, text, j) == q + children);
            assert forall|c: int| 0 <= c < walk_queue(language, text, i).len() implies #[trigger] walk_queue(
                language,
                text,
                j,
            )[c] == walk_queue(language, text, i)[c] by {
                assert((q + children)[c] == q[c]);
            }
        }
    }
}

/// A walk that has visited every node it met stays where it is.
pub proof fn lemma_walk_stops(language: SupportedLanguage, text: Seq<u8>, m: nat, j: nat)
    requires
        walk_queue(language, text, m).len() == m,
        m <= j,
    ensures
        walk_queue(language, text, j) == walk_queue(language, text, m),
    decreases j - m,
{
    if m < j {
        lemma_walk_stops(language, text, m, (j - 1) as nat);
    }
}

/// The walk is determined: two breadth-first copies of tree-sitter's tree
/// of a text have the same length and agree, node by node, on every field
/// (the kinds as text).
pub proof fn parsed_nodes_are_unique(
    a: Seq<SyntaxNode>,
    b: Seq<SyntaxNode>,
    language: SupportedLanguage,
    text: Seq<u8>,
)
    requires
        parsed_nodes(a, language, text),
        parsed_nodes(b, language, text),
    ensures
        a.len() == b.len(),
        forall|i: int|
            0 <= i < a.len() ==> {
                &&& (#[trigger] a[i]).kind@ == b[i].kind@
                &&& a[i].start_byte == b[i].start_byte
                &&& a[i].end_byte == b[i].end_byte
                &&& a[i].start_row == b[i].start_row
                &&& a[i].end_row == b[i].end_row
                &&& a[i].parent == b[i].parent
                &&& a[i].first_child == b[i].first_child
                &&& a[i].child_count == b[i].child_count
            },
{
    if a.len() < b.len() {
        lemma_walk_stops(language, text, a.len(), b.len());
    } else if b.len() < a.len() {
        lemma_walk_stops(language, text, b.len(), a.len());
    }
    assert forall|i: int| 0 <= i < a.len() implies {
        &&& (#[trigger] a[i]).kind@ == b[i].kind@
        &&& a[i].start_byte == b[i].start_byte
        &&& a[i].end_byte == b[i].end_byte
        &&& a[i].start_row == b[i].start_row
        &&& a[i].end_row == b[i].end_row
        &&& a[i].parent == b[i].parent
        &&& a[i].first_child == b[i].first_child
        &&& a[i].child_count == b[i].child_count
    } by {
        assert(copies_node(
            a[i],
            language,
            text,
            walk_queue(language, text, a.len())[i],
            walk_queue(language, text, i as nat).len() as int,
        ));
        assert(copies_node(
            b[i],
            language,
            text,
            walk_queue(language, text, b.len())[i],
            walk_queue(language, text, i as nat).len() as int,
        ));
    }
}

/// A node of the walk that does not fit, met before the walk ends, means
/// that the tree does not fit.
proof fn lemma_unfit_entry(language: SupportedLanguage, text: Seq<u8>, index: nat)
    requires
        index < walk_queue(language, text, index).len(),
        walk_queue(language, text, index)[index as int].1 matches Some(p) ==> p < index,
        !entry_fits(language, text, walk_queue(language, text, index), index as int),
    ensures
        !ts_tree_fits(language, text),
{
    if ts_tree_fits(language, text) {
        let n = choose|n: nat|
            #![trigger walk_queue(language, text, n)]
            walk_queue(language, text, n).len() == n && forall|i: int|
                0 <= i < n ==> #[trigger] entry_fits(language, text, walk_queue(language, text, n), i);
        if n <= index {
            lemma_walk_stops(language, text, n, index);
        } else {
            lemma_walk_prefix(language, text, index, n);
            let q = walk_queue(language, text, index);
            let qn = walk_queue(language, text, n);
            assert(entry_fits(language, text, qn, index as int));
            assert(qn[index as int] == q[index as int]);
            if let Some(p) = q[index as int].1 {
                assert(qn[p as int] == q[p as int]);
            }
        }
    }
}

impl SupportedLanguage {
    /// The tree-sitter grammar for this language.
    pub fn parser_language(self) -> (grammar: Grammar)
        ensures
            grammar.language() == self,
    {
        match self {
            SupportedLanguage::Rust => rust_grammar(),
            SupportedLanguage::Python => python_grammar(),
            SupportedLanguage::JavaScript => javascript_grammar(),
            SupportedLanguage::TypeScript => typescript_grammar(),
        }
    }
}

/// Parses `source` with the grammar of `language`: the tree, when
/// tree-sitter gives one.
fn parse_with<'a>(language: SupportedLanguage, source: &'a str) -> (res: Result<
    SourceTree<'a>,
    ProbeError,
>)
    ensures
        res is Ok <==> ts_parses(language, source.spec_bytes()),
        res matches Ok(tree) ==> tree.language() == language && tree.text() == source.spec_bytes(),
        res matches Err(e) ==> e is Parse,
{
    let grammar = language.parser_language();
    let mut parser = match set_parser_language(new_parser(), &grammar) {
        Ok(parser) => parser,
        Err(error) => return Err(ProbeError::Language(error)),
    };
    match parse_text(&mut parser, source) {
        Some(tree) => Ok(tree),
        None => Err(ProbeError::Parse),
    }
}

/// Whether `source` parses without syntax errors in `language`: whether the
/// root of tree-sitter's tree holds no error, when tree-sitter gives a tree.
pub fn parses_cleanly(language: SupportedLanguage, source: &str) -> (res: Result<bool, ProbeError>)
    ensures
        res is Ok <==> ts_parses(language, source.spec_bytes()),
        res matches Ok(clean) ==> clean == !ts_has_error(
            language,
            source.spec_bytes(),
            Seq::<u32>::empty(),
        ),
        res matches Err(e) ==> e is Parse,
{
    let tree = parse_with(language, source)?;
    let root = root_node(&tree);
    Ok(!node_has_error(&root))
}

/// Parses `source` in `language` into the breadth-first copy of
/// tree-sitter's tree, which succeeds exactly when tree-sitter gives a tree
/// and that tree fits `source`.
pub fn parse_syntax_tree(
    language: SupportedLanguage,
    source: &str,
) -> (res: Result<SyntaxTree, ProbeError>)
    ensures
        res matches Ok(tree) ==> tree.well_formed(source.spec_bytes()) && parsed_nodes(
            tree.nodes@,
            language,
            source.spec_bytes(),
        ),
        res is Ok <==> parse_fits(language, source.spec_bytes()),
        res matches Err(e) ==> e is Parse,
{
    let tree = parse_with(language, source)?;
    let root = root_node(&tree);
    collect_syntax_tree(root, source)
}

/// Copies the tree under `root` breadth first, so that the children of each
/// node form one block that follows it. Refuses, as a parse failure, a tree
/// with a node whose byte range or rows do not fit `source`, or that does
/// not lie inside its parent.
#[verifier::loop_isolation(false)]
pub fn collect_syntax_tree(root: SourceNode, source: &str) -> (res: Result<SyntaxTree, ProbeError>)
    requires
        root.path() == Seq::<u32>::empty(),
        root.text() == source.spec_bytes(),
    ensures
        res matches Ok(tree) ==> tree.well_formed(source.spec_bytes()) && parsed_nodes(
            tree.nodes@,
            root.language(),
            source.spec_bytes(),
        ),
        res is Ok <==> ts_tree_fits(root.language(), source.spec_bytes()),
        res matches Err(e) ==> e is Parse,
{
    let ghost text = source.spec_bytes();
    let ghost language = root.language();
    let newlines = count_newlines(source);
    let text_len = source.as_bytes().len();
    let mut pending: Vec<SourceNode> = Vec::new();
    let mut parents: Vec<Option<usize>> = Vec::new();
    let mut nodes: Vec<SyntaxNode> = Vec::new();
    pending.push(root);
    parents.push(None);
    let mut index: usize = 0;
    while index < pending.len()
        invariant
            pending@.len() == parents@.len(),
            pending@.len() >= 1,
            parents@[0] is None,
            index == nodes@.len(),
            index <= pending@.len(),
            forall|c: int|
                0 < c < parents@.len() ==> (#[trigger] parents@[c] matches Some(p) && p < c && p
                    < index),
            forall|i: int| 0 <= i < index ==> #[trigger] node_fits(nodes@[i], text),
            forall|i: int| 0 <= i < index ==> (#[trigger] nodes@[i]).parent == parents@[i],
            forall|i: int| 0 <= i < index ==> #[trigger] node_nested(nodes@, i),
            forall|i: int|
                0 <= i < index ==> (#[trigger] nodes@[i]).child_count > 0 ==> i
                    < nodes@[i].first_child && nodes@[i].first_child + nodes@[i].child_count
                    <= pending@.len(),
            forall|i: int, c: int|
                #![trigger nodes@[i], parents@[c]]
                0 <= i < index && nodes@[i].first_child <= c < nodes@[i].first_child
                    + nodes@[i].child_count ==> parents@[c] == Some(i as usize),
            pending@.len() == walk_queue(language, text, index as nat).len(),
            forall|c: int|
                0 <= c < pending@.len() ==> {
                    &&& (#[trigger] pending@[c]).language() == language
                    &&& pending@[c].text() == text
                    &&& pending@[c].path() == walk_queue(language, text, index as nat)[c].0
                },
            forall|c: int|
                0 <= c < parents@.len() ==> #[trigger] parents@[c] == walk_queue(
                    language,
                    text,
                    index as nat,
                )[c].1,
            forall|i: int|
                0 <= i < index ==> #[trigger] copies_node(
                    nodes@[i],
                    language,
                    text,
                    walk_queue(language, text, index as nat)[i],
                    walk_queue(language, text, i as nat).len() as int,
                ),
            forall|i: int|
                0 <= i < index ==> #[trigger] entry_fits(
                    language,
                    text,
                    walk_queue(language, text, index as nat),
                    i,
                ),
        decreases usize::MAX - index,
    {
        let ghost queue = walk_queue(language, text, index as nat);
        let node = &pending[index];
        assert(pending@[index as int] == *node);
        let kind = node_kind(node);
        let start_byte = node_start_byte(node);
        let end_byte = node_end_byte(node);
        let start_row = node_start_row(node);
        let end_row = node_end_row(node);
        let parent = parents[index];
        assert(parent == queue[index as int].1);
        assert(node.path() == queue[index as int].0);
        assert(node.language() == language && node.text() == text);
        assert(newlines == newline_count(text));
        if !(start_byte <= end_byte && end_byte <= text_len && source.is_char_boundary(
            start_byte,
        ) && source.is_char_boundary(end_byte) && start_row <= end_row && end_row <= newlines
            && end_row < usize::MAX) {
            proof {
                let path = queue[index as int].0;
                assert(start_byte == ts_start_byte(language, text, path));
                assert(end_byte == ts_end_byte(language, text, path));
                assert(start_row == ts_start_row(language, text, path));
                assert(end_row == ts_end_row(language, text, path));
                assert(!entry_fits(language, text, queue, index as int));
                lemma_unfit_entry(language, text, index as nat);
            }
            return Err(ProbeError::Parse);
        }
        match parent {
            Some(p) => {
                if !(nodes[p].start_byte <= start_byte && end_byte <= nodes[p].end_byte) {
                    proof {
                        let pi: int = p as int;
                        assert(0 <= pi < index);
                        assert(copies_node(
                            nodes@[pi],
                            language,
                            text,
                            queue[pi],
                            walk_queue(language, text, pi as nat).len() as int,
                        ));
                        lemma_unfit_entry(language, text, index as nat);
                    }
                    return Err(ProbeError::Parse);
                }
                proof {
                    let pi: int = p as int;
                    assert(0 <= pi < index);
                    assert(copies_node(
                        nodes@[pi],
                        language,
                        text,
                        queue[pi],
                        walk_queue(language, text, pi as nat).len() as int,
                    ));
                }
            },
            None => {},
        }
        assert(entry_fits(language, text, queue, index as int));
        let count = node_child_count(node);
        let first_child = pending.len();
        let ghost parents_before = parents@;
        let ghost path = queue[index as int].0;
        let mut children: Vec<SourceNode> = Vec::new();
        let mut k: u32 = 0;
        while k < count
            invariant
                k <= count,
                children@.len() == k,
                parents@.len() == first_child + k,
                forall|c: int| 0 <= c < first_child ==> #[trigger] parents@[c] == parents_before[c],
                forall|c: int|
                    first_child <= c < parents@.len() ==> #[trigger] parents@[c] == Some(index),
                forall|j: int|
                    0 <= j < k ==> {
                        &&& (#[trigger] children@[j]).language() == language
                        &&& children@[j].text() == text
                        &&& children@[j].path() == path.push(j as u32)
                    },
            decreases count - k,
        {
            match node_child(node, k) {
                Some(child) => {
                    children.push(child);
                    parents.push(Some(index));
                },
                None => {
                    assert(false);
                    return Err(ProbeError::Parse);
                },
            }
            k = k + 1;
        }
        let ghost pending_before = pending@;
        let ghost children_view = children@;
        pending.append(&mut children);
        let ghost nodes_before = nodes@;
        nodes.push(
            SyntaxNode {
                kind,
                start_byte,
                end_byte,
                start_row,
                end_row,
                parent,
                first_child,
                child_count: count as usize,
            },
        );
        proof {
            let next = walk_queue(language, text, (index + 1) as nat);
            let added = Seq::new(
                ts_child_count(language, text, path) as nat,
                |k: int| (path.push(k as u32), Some(index as usize)),
            );
            assert(next == queue + added);
            assert(added.len() == count);
            assert(children_view.len() == count);
            assert(pending@ == pending_before + children_view);
            assert(pending_before.len() == queue.len());
            assert(next.len() == pending@.len());
            assert forall|c: int| 0 <= c < pending@.len() implies {
                &&& (#[trigger] pending@[c]).language() == language
                &&& pending@[c].text() == text
                &&& pending@[c].path() == next[c].0
            } by {
                if c < first_child {
                    assert(pending@[c] == pending_before[c]);
                    assert(next[c] == queue[c]);
                } else {
                    let j = c - first_child;
                    assert(pending@[c] == children_view[j]);
                    assert(children_view[j].path() == path.push(j as u32));
                    assert(next[c] == added[j]);
                }
            }
            assert forall|c: int| 0 <= c < parents@.len() implies #[trigger] parents@[c]
                == next[c].1 by {
                if c < first_child {
                    assert(parents@[c] == parents_before[c]);
                    assert(next[c] == queue[c]);
                } else {
                    assert(next[c] == added[c - first_child]);
                }
            }
            assert forall|i: int| 0 <= i < index + 1 implies #[trigger] copies_node(
                nodes@[i],
                language,
                text,
                next[i],
                walk_queue(language, text, i as nat).len() as int,
            ) by {
                assert(next[i] == queue[i]);
                if i < index {
                    assert(nodes@[i] == nodes_before[i]);
                }
            }
            assert forall|i: int| 0 <= i < index + 1 implies #[trigger] entry_fits(
                language,
                text,
                next,
                i,
            ) by {
                assert(next[i] == queue[i]);
                assert(entry_fits(language, text, queue, i));
                if let Some(p) = queue[i].1 {
                    assert(parents@[i] == Some(p));
                    assert(next[p as int] == queue[p as int]);
                }
            }
            assert forall|i: int| 0 <= i < index + 1 implies #[trigger] node_nested(nodes@, i) by {
                if i < index {
                    assert(node_nested(nodes_before, i));
                    if nodes@[i].parent is Some {
                        assert(nodes@[nodes@[i].parent->0 as int] == nodes_before[nodes@[i].parent->0 as int]);
                    }
                }
            }
        }
        index = index + 1;
    }
    let tree = SyntaxTree { nodes };
    proof {
        assert forall|i: int| 0 <= i < tree.nodes@.len() implies #[trigger] node_linked(
            tree.nodes@,
            i,
        ) by {
            if i > 0 {
                assert(parents@[i] matches Some(p) && p < i);
            }
        }
        let n = index as nat;
        assert(walk_queue(language, text, n).len() == n);
        assert(forall|i: int|
            0 <= i < n ==> #[trigger] entry_fits(language, text, walk_queue(language, text, n), i));
    }
    Ok(tree)
}

} // verus!
