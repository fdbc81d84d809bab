//! The library's handle on tree-sitter: a grammar, a parser, a tree and its
//! nodes, each carried together with what it was made from.
//!
//! A node of the tree that tree-sitter builds for a text is determined by
//! the grammar, the text and the path of child indices that leads to it
//! from the root. The values below carry exactly that beside the outside
//! value. Their fields are private to this module, and only the wrappers
//! here build them, each from the outside call that yields the value it
//! holds: so what a value carries always describes the value it holds.
//!
//! What tree-sitter computes for a node (its kind, its range, its rows,
//! how many children it has, whether it holds an error) is named below as
//! a function of grammar, text and path; the names are not defined here.
use vstd::prelude::*;
use vstd::string::*;

use tree_sitter::{Language, LanguageError, Node, Parser, Tree};

use crate::probe::SupportedLanguage;

verus! {

/// A tree-sitter parser.
#[verifier::external_type_specification]
#[verifier::external_body]
pub struct ParserType(tree_sitter::Parser);

/// A tree-sitter syntax tree.
#[verifier::external_type_specification]
#[verifier::external_body]
pub struct TreeType(tree_sitter::Tree);

/// A node of a tree-sitter syntax tree.
#[verifier::external_type_specification]
#[verifier::external_body]
pub struct NodeType<'tree>(tree_sitter::Node<'tree>);

/// A tree-sitter grammar.
#[verifier::external_type_specification]
#[verifier::external_body]
pub struct LanguageType(tree_sitter::Language);

/// Why tree-sitter refused a grammar for a parser.
#[verifier::external_type_specification]
#[verifier::external_body]
pub struct LanguageErrorType(tree_sitter::LanguageError);

/// One of the bundled grammars, with the language it is the grammar of.
pub struct Grammar {
    grammar: Language,
    language: SupportedLanguage,
}

impl Grammar {
    /// The language this is the grammar of.
    pub closed spec fn language(&self) -> SupportedLanguage {
        self.language
    }
}

/// A parser that holds the bundled grammar of `language`.
pub struct SourceParser {
    parser: Parser,
    language: SupportedLanguage,
}

impl SourceParser {
    /// The language whose grammar the parser holds.
    pub closed spec fn language(&self) -> SupportedLanguage {
        self.language
    }
}

/// The tree that a parser for `language` built for `text`.
pub struct SourceTree<'a> {
    tree: Tree,
    language: SupportedLanguage,
    text: &'a str,
}

impl<'a> SourceTree<'a> {
    /// The language the tree was parsed as.
    pub closed spec fn language(&self) -> SupportedLanguage {
        self.language
    }

    /// The bytes the tree was parsed from.
    pub closed spec fn text(&self) -> Seq<u8> {
        self.text.spec_bytes()
    }
}

/// The node reached by `path` from the root of the tree that a parser for
/// `language` built for `text`.
pub struct SourceNode<'a> {
    node: Node<'a>,
    language: SupportedLanguage,
    text: &'a str,
    path: Vec<u32>,
}

impl<'a> SourceNode<'a> {
    /// The language of the tree the node belongs to.
    pub closed spec fn language(&self) -> SupportedLanguage {
        self.language
    }

    /// The bytes of the tree the node belongs to.
    pub closed spec fn text(&self) -> Seq<u8> {
        self.text.spec_bytes()
    }

    /// The child indices that lead from the root to the node.
    pub closed spec fn path(&self) -> Seq<u32> {
        self.path@
    }
}

/// Whether tree-sitter's parser for `language` gives a tree for `text`.
pub uninterp spec fn ts_parses(language: SupportedLanguage, text: Seq<u8>) -> bool;

/// The kind of the node at `path` in tree-sitter's tree of `text`.
pub uninterp spec fn ts_kind(language: SupportedLanguage, text: Seq<u8>, path: Seq<u32>) -> Seq<
    char,
>;

/// The first byte of the node at `path`.
pub uninterp spec fn ts_start_byte(
    language: SupportedLanguage,
    text: Seq<u8>,
    path: Seq<u32>,
) -> usize;

/// The byte after the last byte of the node at `path`.
pub uninterp spec fn ts_end_byte(language: SupportedLanguage, text: Seq<u8>, path: Seq<u32>) -> usize;

/// The zero-based row on which the node at `path` starts.
pub uninterp spec fn ts_start_row(language: SupportedLanguage, text: Seq<u8>, path: Seq<u32>) -> usize;

/// The zero-based row on which the node at `path` ends.
pub uninterp spec fn ts_end_row(language: SupportedLanguage, text: Seq<u8>, path: Seq<u32>) -> usize;

/// The number of children of the node at `path`.
pub uninterp spec fn ts_child_count(
    language: SupportedLanguage,
    text: Seq<u8>,
    path: Seq<u32>,
) -> u32;

/// Whether the node at `path` is, or holds, a syntax error.
pub uninterp spec fn ts_has_error(language: SupportedLanguage, text: Seq<u8>, path: Seq<u32>) -> bool;

/// The grammar `tree_sitter_rust::LANGUAGE`, converted to a
/// `tree_sitter::Language`, for Rust.
#[verifier::external_body]
pub(crate) fn rust_grammar() -> (grammar: Grammar)
    ensures
        grammar.language() == SupportedLanguage::Rust,
{
    Grammar { grammar: tree_sitter_rust::LANGUAGE.into(), language: SupportedLanguage::Rust }
}

/// The grammar `tree_sitter_python::LANGUAGE`, converted to a
/// `tree_sitter::Language`, for Python.
#[verifier::external_body]
pub(crate) fn python_grammar() -> (grammar: Grammar)
    ensures
        grammar.language() == SupportedLanguage::Python,
{
    Grammar { grammar: tree_sitter_python::LANGUAGE.into(), language: SupportedLanguage::Python }
}

/// The grammar `tree_sitter_javascript::LANGUAGE`, converted to a
/// `tree_sitter::Language`, for JavaScript.
#[verifier::external_body]
pub(crate) fn javascript_grammar() -> (grammar: Grammar)
    ensures
        grammar.language() == SupportedLanguage::JavaScript,
{
    Grammar {
        grammar: tree_sitter_javascript::LANGUAGE.into(),
        language: SupportedLanguage::JavaScript,
    }
}

/// The grammar `tree_sitter_typescript::LANGUAGE_TYPESCRIPT`, converted to
/// a `tree_sitter::Language`, for TypeScript.
#[verifier::external_body]
pub(crate) fn typescript_grammar() -> (grammar: Grammar)
    ensures
        grammar.language() == SupportedLanguage::TypeScript,
{
    Grammar {
        grammar: tree_sitter_typescript::LANGUAGE_TYPESCRIPT.into(),
        language: SupportedLanguage::TypeScript,
    }
}

/// `tree_sitter::Parser::new`: a parser with no grammar yet. Claims nothing
/// of it.
#[verifier::external_body]
pub(crate) fn new_parser() -> (parser: Parser) {
    Parser::new()
}

/// `tree_sitter::Parser::set_language` with a bundled grammar. It refuses
/// only a grammar whose ABI version lies outside the range this tree-sitter
/// reads, or one without a lexer; each bundled grammar has a lexer and an
/// ABI version in that range, so the call succeeds and the parser then
/// holds the grammar.
#[verifier::external_body]
pub(crate) fn set_parser_language(parser: Parser, grammar: &Grammar) -> (res: Result<SourceParser, LanguageError>)
    ensures
        res is Ok,
        res->Ok_0.language() == grammar.language(),
{
    let mut parser = parser;
    match parser.set_language(&grammar.grammar) {
        Ok(()) => Ok(SourceParser { parser, language: grammar.language }),
        Err(error) => Err(error),
    }
}

/// `tree_sitter::Parser::parse` of the whole of `text`, with no earlier
/// tree: whether a tree comes back is named as a function of the grammar
/// and the text.
#[verifier::external_body]
pub(crate) fn parse_text<'a>(parser: &mut SourceParser, text: &'a str) -> (res: Option<SourceTree<'a>>)
    ensures
        final(parser).language() == old(parser).language(),
        res is Some <==> ts_parses(old(parser).language(), text.spec_bytes()),
        res is Some ==> res->0.language() == old(parser).language(),
        res is Some ==> res->0.text() == text.spec_bytes(),
{
    match parser.parser.parse(text, None) {
        Some(tree) => Some(SourceTree { tree, language: parser.language, text }),
        None => None,
    }
}

/// `tree_sitter::Tree::root_node`: the node at the empty path.
#[verifier::external_body]
pub(crate) fn root_node<'a>(tree: &'a SourceTree<'a>) -> (node: SourceNode<'a>)
    ensures
        node.language() == tree.language(),
        node.text() == tree.text(),
        node.path() == Seq::<u32>::empty(),
{
    SourceNode { node: tree.tree.root_node(), language: tree.language, text: tree.text, path: Vec::new() }
}

/// `tree_sitter::Node::kind`, as an owned string.
#[verifier::external_body]
pub(crate) fn node_kind(node: &SourceNode) -> (kind: String)
    ensures
        kind@ == ts_kind(node.language(), node.text(), node.path()),
{
    node.node.kind().to_string()
}

/// `tree_sitter::Node::start_byte`.
#[verifier::external_body]
pub(crate) fn node_start_byte(node: &SourceNode) -> (offset: usize)
    ensures
        offset == ts_start_byte(node.language(), node.text(), node.path()),
{
    node.node.start_byte()
}

/// `tree_sitter::Node::end_byte`.
#[verifier::external_body]
pub(crate) fn node_end_byte(node: &SourceNode) -> (offset: usize)
    ensures
        offset == ts_end_byte(node.language(), node.text(), node.path()),
{
    node.node.end_byte()
}

/// The row of `tree_sitter::Node::start_position`.
#[verifier::external_body]
pub(crate) fn node_start_row(node: &SourceNode) -> (row: usize)
    ensures
        row == ts_start_row(node.language(), node.text(), node.path()),
{
    node.node.start_position().row
}

/// The row of `tree_sitter::Node::end_position`.
#[verifier::external_body]
pub(crate) fn node_end_row(node: &SourceNode) -> (row: usize)
    ensures
        row == ts_end_row(node.language(), node.text(), node.path()),
{
    node.node.end_position().row
}

/// `tree_sitter::Node::child_count`.
#[verifier::external_body]
pub(crate) fn node_child_count(node: &SourceNode) -> (count: u32)
    ensures
        count == ts_child_count(node.language(), node.text(), node.path()),
{
    node.node.child_count()
}

/// `tree_sitter::Node::child`: the child at `index`, which there is exactly
/// when `index` is below the node's child count; it is the node at the path
/// extended by `index`.
#[verifier::external_body]
pub(crate) fn node_child<'a>(node: &SourceNode<'a>, index: u32) -> (child: Option<SourceNode<'a>>)
    ensures
        child is Some <==> index < ts_child_count(node.language(), node.text(), node.path()),
        child is Some ==> child->0.language() == node.language(),
        child is Some ==> child->0.text() == node.text(),
        child is Some ==> child->0.path() == node.path().push(index),
{
    match node.node.child(index) {
        Some(child) => {
            let mut path = node.path.clone();
            path.push(index);
            Some(SourceNode { node: child, language: node.language, text: node.text, path })
        },
        None => None,
    }
}

/// `tree_sitter::Node::has_error`: whether the node is, or holds, a
/// syntax error.
#[verifier::external_body]
pub(crate) fn node_has_error(node: &SourceNode) -> (res: bool)
    ensures
        res == ts_has_error(node.language(), node.text(), node.path()),
{
    node.node.has_error()
}

} // verus!
