//! Syntax probing: which supported language a file is written in, which
//! syntax node kinds a node-type alias stands for, and whether a pattern
//! occurs inside a node of one of those kinds.
//!
//! A probe looks at the occurrences of the pattern from left to right, never
//! overlapping. For each, it descends from the root into the first child
//! that spans the whole occurrence, as deep as it can, then walks up to the
//! nearest node whose kind is one of the requested kinds. The first
//! occurrence for which such a node exists decides the answer.
use vstd::prelude::*;
use vstd::string::*;
use vstd::utf8::*;

use tree_sitter::LanguageError;

use crate::grammar::{parse_fits, parse_syntax_tree, parsed_nodes, parses_cleanly};
use crate::parsed::{ts_has_error, ts_parses};
use crate::syntax::{
    covering_node, covers, descend, enclosing_of_kind, find_covering_node, lemma_descend_covers,
    lemma_enclosing_covers, node_fits, node_linked, tree_linked, tree_well_formed, SyntaxNode,
    SyntaxTree,
};
use crate::text::{lemma_boundary_in_prefix, newline_count, str_equal, string_views, substring};

verus! {

broadcast use vstd::utf8::group_utf8_lib;

/// A language whose grammar the library parses with.
#[derive(Debug, Clone, Copy, PartialEq, Eq, Structural)]
pub enum SupportedLanguage {
    Rust,
    Python,
    JavaScript,
    TypeScript,
}

/// A question: does `query_pattern` occur in the file inside a node of type
/// `node_type` (an alias such as `function`, or a raw node kind)?
#[derive(Debug, Clone, PartialEq, Eq)]
pub struct ProbeRequest {
    pub file_path: String,
    pub query_pattern: String,
    pub node_type: String,
}

/// The answer to a probe: the node found, with its 1-based first and last
/// lines, or nothing.
#[derive(Debug, Clone, PartialEq, Eq)]
pub struct ProbeResponse {
    pub is_valid: bool,
    pub node_type: Option<String>,
    pub start_line: Option<usize>,
    pub end_line: Option<usize>,
}

/// A request for the source block around a pattern.
#[derive(Debug, Clone, PartialEq, Eq)]
pub struct SqueezeRequest {
    pub file_path: String,
    pub query_pattern: String,
    pub node_type: String,
}

/// The source block of the node that a probe finds, with its kind and its
/// 1-based first and last lines.
#[derive(Debug, Clone, PartialEq, Eq)]
pub struct SqueezeResponse {
    pub file: String,
    pub node_type: String,
    pub start_line: usize,
    pub end_line: usize,
    pub text: String,
}

/// Why probing a file failed.
#[derive(Debug)]
pub enum ProbeError {
    MissingFilePath,
    MissingQueryPattern,
    MissingNodeType,
    UnsupportedFileExtension(String),
    ReadSource(std::io::Error),
    Language(LanguageError),
    Parse,
}

/// The place of the last `c` in `s`, or -1 when `c` does not occur in it.
pub open spec fn last_index_of(s: Seq<char>, c: char) -> int
    decreases s.len(),
{
    if s.len() == 0 {
        -1
    } else if s.last() == c {
        s.len() - 1
    } else {
        last_index_of(s.drop_last(), c)
    }
}

/// The name of the file that `path` names: its last component, where
/// components are separated by `/` and empty components and `.` are
/// skipped; none when that component is `..` or there is no component.
pub open spec fn file_name(path: Seq<char>) -> Option<Seq<char>>
    decreases path.len(),
{
    if path.len() == 0 {
        None
    } else if path.last() == '/' {
        file_name(path.drop_last())
    } else {
        let name = path.subrange(last_index_of(path, '/') + 1, path.len() as int);
        if name == seq!['.'] {
            file_name(path.drop_last())
        } else if name == seq!['.', '.'] {
            None
        } else {
            Some(name)
        }
    }
}

/// The extension of a file name: what follows its last `.`, when that `.`
/// is not its first character; empty otherwise.
pub open spec fn name_extension(name: Seq<char>) -> Seq<char> {
    let dot = last_index_of(name, '.');
    if dot <= 0 {
        Seq::empty()
    } else {
        name.subrange(dot + 1, name.len() as int)
    }
}

/// The extension of the file that `path` names, as `std::path::Path`
/// reads a path whose separator is `/`; empty when it has none.
pub open spec fn path_extension(path: Seq<char>) -> Seq<char> {
    match file_name(path) {
        Some(name) => name_extension(name),
        None => Seq::empty(),
    }
}

/// The place of the last `c` among the characters `lo..hi` of `text`.
fn last_char_in(text: &str, lo: usize, hi: usize, c: char) -> (res: Option<usize>)
    requires
        lo <= hi <= text@.len(),
    ensures
        match res {
            Some(i) => lo <= i < hi && last_index_of(text@.subrange(lo as int, hi as int), c) == i - lo,
            None => last_index_of(text@.subrange(lo as int, hi as int), c) == -1,
        },
{
    let mut j = hi;
    while j > lo
        invariant
            lo <= j <= hi <= text@.len(),
            last_index_of(text@.subrange(lo as int, hi as int), c) == last_index_of(
                text@.subrange(lo as int, j as int),
                c,
            ),
        decreases j,
    {
        let w = Ghost(text@.subrange(lo as int, j as int));
        assert(w@.drop_last() =~= text@.subrange(lo as int, j - 1));
        if text.get_char(j - 1) == c {
            return Some(j - 1);
        }
        j = j - 1;
    }
    None
}

/// The extension of the file that `path` names, as text (empty when there
/// is none).
fn extension_of(path: &str) -> (extension: String)
    ensures
        extension@ == path_extension(path@),
{
    let n = path.unicode_len();
    let mut end = n;
    assert(path@.subrange(0, end as int) =~= path@);
    loop
        invariant
            end <= path@.len(),
            n == path@.len(),
            file_name(path@) == file_name(path@.subrange(0, end as int)),
        decreases end,
    {
        let ghost prefix = path@.subrange(0, end as int);
        if end == 0 {
            assert(prefix =~= Seq::<char>::empty());
            return String::new();
        }
        assert(prefix.drop_last() =~= path@.subrange(0, end - 1));
        if path.get_char(end - 1) == '/' {
            end = end - 1;
        } else {
            let start = match last_char_in(path, 0, end, '/') {
                Some(i) => i + 1,
                None => 0,
            };
            assert(path@.subrange(0, end as int) =~= prefix);
            let ghost name = prefix.subrange(start as int, end as int);
            assert(name =~= path@.subrange(start as int, end as int));
            if end - start == 1 && path.get_char(start) == '.' {
                assert(name =~= seq!['.']);
                end = end - 1;
            } else if end - start == 2 && path.get_char(start) == '.' && path.get_char(start + 1)
                == '.' {
                assert(name =~= seq!['.', '.']);
                return String::new();
            } else {
                assert(name != seq!['.']) by {
                    if name == seq!['.'] {
                        assert(name[0] == path@[start as int]);
                    }
                }
                assert(name != seq!['.', '.']) by {
                    if name == seq!['.', '.'] {
                        assert(name[0] == path@[start as int]);
                        assert(name[1] == path@[start + 1]);
                    }
                }
                assert(file_name(path@) == Some(name));
                return match last_char_in(path, start, end, '.') {
                    Some(dot) => {
                        if dot == start {
                            String::new()
                        } else {
                            let extension = path.substring_char(dot + 1, end);
                            assert(extension@ =~= name.subrange(dot - start + 1, name.len() as int));
                            extension.to_owned()
                        }
                    },
                    None => String::new(),
                };
            }
        }
    }
}

/// The language of files with this extension.
pub open spec fn extension_language(extension: Seq<char>) -> Option<SupportedLanguage> {
    if extension == "rs"@ {
        Some(SupportedLanguage::Rust)
    } else if extension == "py"@ {
        Some(SupportedLanguage::Python)
    } else if extension == "js"@ || extension == "jsx"@ || extension == "mjs"@ || extension
        == "cjs"@ {
        Some(SupportedLanguage::JavaScript)
    } else if extension == "ts"@ || extension == "tsx"@ {
        Some(SupportedLanguage::TypeScript)
    } else {
        None
    }
}

/// The node kinds that a node-type alias stands for in a language; any other
/// name stands for itself.
pub open spec fn alias_kinds(language: SupportedLanguage, alias: Seq<char>) -> Seq<Seq<char>> {
    if alias == "function"@ {
        match language {
            SupportedLanguage::Rust => seq!["function_item"@],
            SupportedLanguage::Python => seq!["function_definition"@],
            _ => seq!["function_declaration"@, "method_definition"@],
        }
    } else if alias == "class"@ && language != SupportedLanguage::Rust {
        match language {
            SupportedLanguage::Python => seq!["class_definition"@],
            _ => seq!["class_declaration"@],
        }
    } else if language == SupportedLanguage::Rust && alias == "struct"@ {
        seq!["struct_item"@]
    } else if language == SupportedLanguage::Rust && alias == "impl"@ {
        seq!["impl_item"@]
    } else if language == SupportedLanguage::Rust && alias == "enum"@ {
        seq!["enum_item"@]
    } else if language == SupportedLanguage::TypeScript && alias == "interface"@ {
        seq!["interface_declaration"@]
    } else {
        seq![alias]
    }
}

/// The node kinds that each alias stands for, language by language, as the
/// grammars name them: in Rust `function`, `struct`, `impl` and `enum` stand
/// for `function_item`, `struct_item`, `impl_item` and `enum_item`; in Python
/// `function` and `class` for `function_definition` and `class_definition`;
/// in JavaScript and TypeScript `function` for both `function_declaration`
/// and `method_definition` and `class` for `class_declaration`; in TypeScript
/// `interface` for `interface_declaration`.
pub proof fn aliases_stand_for_grammar_kinds()
    ensures
        alias_kinds(SupportedLanguage::Rust, "function"@) == seq!["function_item"@],
        alias_kinds(SupportedLanguage::Rust, "struct"@) == seq!["struct_item"@],
        alias_kinds(SupportedLanguage::Rust, "impl"@) == seq!["impl_item"@],
        alias_kinds(SupportedLanguage::Rust, "enum"@) == seq!["enum_item"@],
        alias_kinds(SupportedLanguage::Python, "function"@) == seq!["function_definition"@],
        alias_kinds(SupportedLanguage::Python, "class"@) == seq!["class_definition"@],
        alias_kinds(SupportedLanguage::JavaScript, "function"@) == seq![
            "function_declaration"@,
            "method_definition"@,
        ],
        alias_kinds(SupportedLanguage::JavaScript, "class"@) == seq!["class_declaration"@],
        alias_kinds(SupportedLanguage::TypeScript, "function"@) == seq![
            "function_declaration"@,
            "method_definition"@,
        ],
        alias_kinds(SupportedLanguage::TypeScript, "class"@) == seq!["class_declaration"@],
        alias_kinds(SupportedLanguage::TypeScript, "interface"@) == seq!["interface_declaration"@],
{
    reveal_strlit("function");
    reveal_strlit("class");
    reveal_strlit("struct");
    reveal_strlit("impl");
    reveal_strlit("enum");
    reveal_strlit("interface");
    assert("function"@[0] == 'f' && "class"@[0] == 'c' && "struct"@[0] == 's');
    assert("impl"@[0] == 'i' && "enum"@[0] == 'e' && "interface"@[0] == 'i');
    assert("impl"@.len() == 4 && "interface"@.len() == 9);
}

/// Any name that is not one of a language's aliases stands for itself: a
/// raw node kind is looked for as given.
pub proof fn other_names_stand_for_themselves(language: SupportedLanguage, name: Seq<char>)
    requires
        name != "function"@,
        name != "class"@ || language == SupportedLanguage::Rust,
        language == SupportedLanguage::Rust ==> name != "struct"@ && name != "impl"@ && name
            != "enum"@,
        language == SupportedLanguage::TypeScript ==> name != "interface"@,
    ensures
        alias_kinds(language, name) == seq![name],
{
}

/// In JavaScript and TypeScript a `class` probe looks for class declarations
/// and nothing else: it answers as a probe for `class_declaration` does, and
/// a node it finds is of that kind.
pub proof fn class_probes_find_class_declarations(
    tree: SyntaxTree,
    text: Seq<u8>,
    pattern: Seq<u8>,
    language: SupportedLanguage,
)
    requires
        tree.well_formed(text),
        language == SupportedLanguage::JavaScript || language == SupportedLanguage::TypeScript,
    ensures
        probe_outcome(tree.nodes@, text, pattern, alias_kinds(language, "class"@)) == probe_outcome(
            tree.nodes@,
            text,
            pattern,
            seq!["class_declaration"@],
        ),
        probe_outcome(tree.nodes@, text, pattern, alias_kinds(language, "class"@)).is_valid
            ==> (probe_outcome(
            tree.nodes@,
            text,
            pattern,
            alias_kinds(language, "class"@),
        ).node_type matches Some(kind) && kind@ == "class_declaration"@),
{
    aliases_stand_for_grammar_kinds();
    probe_hit_holds_pattern(tree, text, pattern, seq!["class_declaration"@]);
}

/// In JavaScript and TypeScript a `function` probe looks for function
/// declarations and methods alike: it answers as a probe for
/// `function_declaration` and `method_definition` does, and a node it finds
/// is of one of those kinds.
pub proof fn function_probes_find_methods_too(
    tree: SyntaxTree,
    text: Seq<u8>,
    pattern: Seq<u8>,
    language: SupportedLanguage,
)
    requires
        tree.well_formed(text),
        language == SupportedLanguage::JavaScript || language == SupportedLanguage::TypeScript,
    ensures
        probe_outcome(tree.nodes@, text, pattern, alias_kinds(language, "function"@))
            == probe_outcome(
            tree.nodes@,
            text,
            pattern,
            seq!["function_declaration"@, "method_definition"@],
        ),
        probe_outcome(tree.nodes@, text, pattern, alias_kinds(language, "function"@)).is_valid
            ==> (probe_outcome(
            tree.nodes@,
            text,
            pattern,
            alias_kinds(language, "function"@),
        ).node_type matches Some(kind) && (kind@ == "function_declaration"@ || kind@
            == "method_definition"@)),
{
    aliases_stand_for_grammar_kinds();
    let kinds = seq!["function_declaration"@, "method_definition"@];
    probe_hit_holds_pattern(tree, text, pattern, kinds);
    if let Some(m) = probe_hit(tree.nodes@, text, pattern, kinds) {
        assert(kinds.contains(tree.nodes@[m].kind@));
        let j = choose|j: int| 0 <= j < kinds.len() && kinds[j] == tree.nodes@[m].kind@;
        assert(j == 0 || j == 1);
    }
}

/// The starts of the occurrences of `pattern` in `text` from byte `i` on,
/// leftmost first and never overlapping.
pub open spec fn occurrences(text: Seq<u8>, pattern: Seq<u8>, i: int) -> Seq<int>
    decreases text.len() - i,
{
    if pattern.len() == 0 || i < 0 || i + pattern.len() > text.len() {
        seq![]
    } else if text.subrange(i, i + pattern.len()) == pattern {
        seq![i] + occurrences(text, pattern, i + pattern.len())
    } else {
        occurrences(text, pattern, i + 1)
    }
}

/// The node decided by the first of `starts` (occurrences of a pattern of
/// `len` bytes) whose covering node has an ancestor-or-self of one of
/// `kinds`.
pub open spec fn first_hit(
    nodes: Seq<SyntaxNode>,
    starts: Seq<int>,
    len: int,
    kinds: Seq<Seq<char>>,
) -> Option<int>
    decreases starts.len(),
{
    if starts.len() == 0 {
        None
    } else {
        let hit = match covering_node(nodes, 0, starts[0], starts[0] + len) {
            Some(n) => enclosing_of_kind(nodes, n, kinds),
            None => None,
        };
        match hit {
            Some(m) => Some(m),
            None => first_hit(nodes, starts.drop_first(), len, kinds),
        }
    }
}

/// The node that probing `text` for `pattern` among `kinds` finds.
pub open spec fn probe_hit(
    nodes: Seq<SyntaxNode>,
    text: Seq<u8>,
    pattern: Seq<u8>,
    kinds: Seq<Seq<char>>,
) -> Option<int> {
    first_hit(nodes, occurrences(text, pattern, 0), pattern.len() as int, kinds)
}

/// The answer that reports node `node`.
pub open spec fn response_for(node: SyntaxNode) -> ProbeResponse {
    ProbeResponse {
        is_valid: true,
        node_type: Some(node.kind),
        start_line: Some((node.start_row + 1) as usize),
        end_line: Some((node.end_row + 1) as usize),
    }
}

/// The answer that reports no node.
pub open spec fn invalid_response() -> ProbeResponse {
    ProbeResponse { is_valid: false, node_type: None, start_line: None, end_line: None }
}

/// The answer of a probe over a tree.
pub open spec fn probe_outcome(
    nodes: Seq<SyntaxNode>,
    text: Seq<u8>,
    pattern: Seq<u8>,
    kinds: Seq<Seq<char>>,
) -> ProbeResponse {
    match probe_hit(nodes, text, pattern, kinds) {
        Some(n) => response_for(nodes[n]),
        None => invalid_response(),
    }
}

/// The block that a squeeze over a tree returns.
pub open spec fn squeeze_outcome(
    nodes: Seq<SyntaxNode>,
    file: String,
    text: Seq<u8>,
    pattern: Seq<u8>,
    kinds: Seq<Seq<char>>,
) -> Option<(Seq<char>, Seq<char>, usize, usize, Seq<char>)> {
    match probe_hit(nodes, text, pattern, kinds) {
        Some(n) => Some(
            (
                file@,
                nodes[n].kind@,
                (nodes[n].start_row + 1) as usize,
                (nodes[n].end_row + 1) as usize,
                decode_utf8(text.subrange(nodes[n].start_byte as int, nodes[n].end_byte as int)),
            ),
        ),
        None => None,
    }
}

/// The view of a squeeze answer.
pub open spec fn squeeze_view(r: SqueezeResponse) -> (Seq<char>, Seq<char>, usize, usize, Seq<char>) {
    (r.file@, r.node_type@, r.start_line, r.end_line, r.text@)
}

/// What validating a probe request before reading its file gives.
pub open spec fn probe_request_validity(
    file_path: Seq<char>,
    query_pattern: Seq<char>,
    node_type: Seq<char>,
) -> Result<(), ProbeError> {
    if file_path.len() == 0 {
        Err(ProbeError::MissingFilePath)
    } else if query_pattern.len() == 0 {
        Err(ProbeError::MissingQueryPattern)
    } else if node_type.len() == 0 {
        Err(ProbeError::MissingNodeType)
    } else {
        Ok(())
    }
}

/// The language that the extension of `path` selects, or the refusal that
/// names the extension.
pub open spec fn path_language_result(
    path: Seq<char>,
    res: Result<SupportedLanguage, ProbeError>,
) -> bool {
    match extension_language(path_extension(path)) {
        Some(language) => res == Ok::<SupportedLanguage, ProbeError>(language),
        None => res matches Err(ProbeError::UnsupportedFileExtension(e)) && e@ == path_extension(path),
    }
}

/// Every listed occurrence is one: the pattern's bytes stand there.
pub proof fn lemma_occurrences_are_matches(text: Seq<u8>, pattern: Seq<u8>, i: int)
    ensures
        forall|k: int|
            0 <= k < occurrences(text, pattern, i).len() ==> {
                let st = #[trigger] occurrences(text, pattern, i)[k];
                &&& i <= st
                &&& st + pattern.len() <= text.len()
                &&& text.subrange(st, st + pattern.len()) == pattern
            },
    decreases text.len() - i,
{
    if pattern.len() == 0 || i < 0 || i + pattern.len() > text.len() {
    } else if text.subrange(i, i + pattern.len()) == pattern {
        lemma_occurrences_are_matches(text, pattern, i + pattern.len());
        let rest = occurrences(text, pattern, i + pattern.len());
        assert(occurrences(text, pattern, i) == seq![i] + rest);
        assert forall|k: int| 0 <= k < occurrences(text, pattern, i).len() implies {
            let st = #[trigger] occurrences(text, pattern, i)[k];
            &&& i <= st
            &&& st + pattern.len() <= text.len()
            &&& text.subrange(st, st + pattern.len()) == pattern
        } by {
            if k > 0 {
                assert(occurrences(text, pattern, i)[k] == rest[k - 1]);
            }
        }
    } else {
        lemma_occurrences_are_matches(text, pattern, i + 1);
        let rest = occurrences(text, pattern, i + 1);
        assert(occurrences(text, pattern, i) == rest);
        assert forall|k: int| 0 <= k < occurrences(text, pattern, i).len() implies {
            let st = #[trigger] occurrences(text, pattern, i)[k];
            &&& i <= st
            &&& st + pattern.len() <= text.len()
            &&& text.subrange(st, st + pattern.len()) == pattern
        } by {
            assert(occurrences(text, pattern, i)[k] == rest[k]);
        }
    }
}

/// The node that the first deciding start finds is of one of the kinds and
/// spans the occurrence at one of the starts.
proof fn lemma_first_hit(
    nodes: Seq<SyntaxNode>,
    text: Seq<u8>,
    starts: Seq<int>,
    len: int,
    kinds: Seq<Seq<char>>,
)
    requires
        tree_well_formed(nodes, text),
    ensures
        first_hit(nodes, starts, len, kinds) matches Some(m) ==> {
            &&& 0 <= m < nodes.len()
            &&& kinds.contains(nodes[m].kind@)
            &&& exists|k: int|
                0 <= k < starts.len() && #[trigger] covers(nodes[m], starts[k], starts[k] + len)
        },
    decreases starts.len(),
{
    if starts.len() > 0 {
        let st = starts[0];
        if covers(nodes[0], st, st + len) {
            lemma_descend_covers(nodes, 0, st, st + len);
            let n = descend(nodes, 0, st, st + len);
            lemma_enclosing_covers(nodes, text, n, kinds, st, st + len);
            if let Some(m) = enclosing_of_kind(nodes, n, kinds) {
                assert(covers(nodes[m], starts[0], starts[0] + len));
                return ;
            }
        }
        lemma_first_hit(nodes, text, starts.drop_first(), len, kinds);
        if let Some(m) = first_hit(nodes, starts.drop_first(), len, kinds) {
            let k = choose|k: int|
                0 <= k < starts.drop_first().len() && #[trigger] covers(
                    nodes[m],
                    starts.drop_first()[k],
                    starts.drop_first()[k] + len,
                );
            assert(covers(nodes[m], starts[k + 1], starts[k + 1] + len));
        }
    }
}

/// A probe that finds a node finds one of a requested kind that holds an
/// occurrence of the pattern: the pattern's bytes stand inside the node's
/// byte range.
pub proof fn probe_hit_holds_pattern(
    tree: SyntaxTree,
    text: Seq<u8>,
    pattern: Seq<u8>,
    kinds: Seq<Seq<char>>,
)
    requires
        tree.well_formed(text),
    ensures
        probe_hit(tree.nodes@, text, pattern, kinds) matches Some(m) ==> {
            &&& 0 <= m < tree.nodes@.len()
            &&& kinds.contains(tree.nodes@[m].kind@)
            &&& exists|st: int|
                #![trigger text.subrange(st, st + pattern.len())]
                tree.nodes@[m].start_byte <= st && st + pattern.len() <= tree.nodes@[m].end_byte
                    && text.subrange(st, st + pattern.len()) == pattern
        },
{
    let nodes = tree.nodes@;
    let starts = occurrences(text, pattern, 0);
    lemma_first_hit(nodes, text, starts, pattern.len() as int, kinds);
    lemma_occurrences_are_matches(text, pattern, 0);
    if let Some(m) = probe_hit(nodes, text, pattern, kinds) {
        let k = choose|k: int|
            0 <= k < starts.len() && #[trigger] covers(nodes[m], starts[k], starts[k] + pattern.len());
        let st = starts[k];
        assert(text.subrange(st, st + pattern.len()) == pattern);
    }
}

/// A probe reports a node's type and lines exactly when it finds a node, and
/// then its first line is at most its last, both counted from 1 within the
/// lines of the text.
pub proof fn probe_lines_lie_in_text(
    tree: SyntaxTree,
    text: Seq<u8>,
    pattern: Seq<u8>,
    kinds: Seq<Seq<char>>,
)
    requires
        tree.well_formed(text),
    ensures
        probe_outcome(tree.nodes@, text, pattern, kinds).is_valid <==> probe_outcome(
            tree.nodes@,
            text,
            pattern,
            kinds,
        ).node_type is Some,
        probe_outcome(tree.nodes@, text, pattern, kinds).is_valid <==> probe_outcome(
            tree.nodes@,
            text,
            pattern,
            kinds,
        ).start_line is Some,
        probe_outcome(tree.nodes@, text, pattern, kinds).is_valid <==> probe_outcome(
            tree.nodes@,
            text,
            pattern,
            kinds,
        ).end_line is Some,
        probe_outcome(tree.nodes@, text, pattern, kinds).is_valid ==> {
            let r = probe_outcome(tree.nodes@, text, pattern, kinds);
            1 <= r.start_line->0 <= r.end_line->0 <= newline_count(text) + 1
        },
{
    probe_hit_holds_pattern(tree, text, pattern, kinds);
    if let Some(m) = probe_hit(tree.nodes@, text, pattern, kinds) {
        assert(node_fits(tree.nodes@[m], text));
    }
}

/// A text in which the pattern does not occur probes as no node.
pub proof fn probe_without_occurrence_is_invalid(
    nodes: Seq<SyntaxNode>,
    text: Seq<u8>,
    pattern: Seq<u8>,
    kinds: Seq<Seq<char>>,
)
    requires
        forall|st: int|
            0 <= st && st + pattern.len() <= text.len() ==> #[trigger] text.subrange(st, st + pattern.len())
                != pattern,
    ensures
        probe_outcome(nodes, text, pattern, kinds) == invalid_response(),
{
    lemma_occurrences_are_matches(text, pattern, 0);
    let starts = occurrences(text, pattern, 0);
    if starts.len() > 0 {
        let st = starts[0];
        assert(text.subrange(st, st + pattern.len()) == pattern);
    }
}

/// A squeeze and a probe with the same request over the same tree agree:
/// the squeeze returns a block exactly when the probe answers with a node, of
/// the same kind and lines, and the block is the node's text, which holds
/// the pattern.
pub proof fn squeeze_agrees_with_probe(
    tree: SyntaxTree,
    file: String,
    text: Seq<u8>,
    pattern: Seq<u8>,
    kinds: Seq<Seq<char>>,
)
    requires
        tree.well_formed(text),
        valid_utf8(text),
    ensures
        squeeze_outcome(tree.nodes@, file, text, pattern, kinds) is Some <==> probe_outcome(
            tree.nodes@,
            text,
            pattern,
            kinds,
        ).is_valid,
        squeeze_outcome(tree.nodes@, file, text, pattern, kinds) matches Some(block) ==> {
            let answer = probe_outcome(tree.nodes@, text, pattern, kinds);
            &&& answer.node_type matches Some(kind) && kind@ == block.1
            &&& answer.start_line == Some(block.2)
            &&& answer.end_line == Some(block.3)
            &&& exists|j: int|
                #![trigger encode_utf8(block.4).subrange(j, j + pattern.len())]
                0 <= j && j + pattern.len() <= encode_utf8(block.4).len() && encode_utf8(
                    block.4,
                ).subrange(j, j + pattern.len()) == pattern
        },
{
    let nodes = tree.nodes@;
    probe_hit_holds_pattern(tree, text, pattern, kinds);
    if let Some(m) = probe_hit(nodes, text, pattern, kinds) {
        let node = nodes[m];
        assert(node_fits(node, text));
        let lo = node.start_byte as int;
        let hi = node.end_byte as int;
        lemma_boundary_in_prefix(text, lo, hi);
        let head = text.subrange(0, hi);
        valid_utf8_split(head, lo);
        let block = text.subrange(lo, hi);
        assert(head.subrange(lo, head.len() as int) =~= block);
        decode_utf8_encode_utf8(block);
        let st = choose|st: int|
            #![trigger text.subrange(st, st + pattern.len())]
            lo <= st && st + pattern.len() <= hi && text.subrange(st, st + pattern.len()) == pattern;
        assert(block.subrange(st - lo, st - lo + pattern.len()) =~= text.subrange(st, st + pattern.len()));
        let outcome = squeeze_outcome(nodes, file, text, pattern, kinds)->0;
        assert(encode_utf8(outcome.4) == block);
        assert(encode_utf8(outcome.4).subrange(st - lo, st - lo + pattern.len()) == pattern);
    }
}

/// Selects the language of a file by its extension.
pub fn language_for_extension(extension: &str) -> (res: Result<SupportedLanguage, ProbeError>)
    ensures
        match extension_language(extension@) {
            Some(language) => res == Ok::<SupportedLanguage, ProbeError>(language),
            None => res matches Err(ProbeError::UnsupportedFileExtension(e)) && e@ == extension@,
        },
{
    if str_equal(extension, "rs") {
        Ok(SupportedLanguage::Rust)
    } else if str_equal(extension, "py") {
        Ok(SupportedLanguage::Python)
    } else if str_equal(extension, "js") || str_equal(extension, "jsx") || str_equal(extension, "mjs")
        || str_equal(extension, "cjs") {
        Ok(SupportedLanguage::JavaScript)
    } else if str_equal(extension, "ts") || str_equal(extension, "tsx") {
        Ok(SupportedLanguage::TypeScript)
    } else {
        Err(ProbeError::UnsupportedFileExtension(extension.to_owned()))
    }
}

/// Selects the language of the file at `path` by its extension.
pub fn language_for_path(path: &str) -> (res: Result<SupportedLanguage, ProbeError>)
    ensures
        path_language_result(path@, res),
{
    let extension = extension_of(path);
    language_for_extension(extension.as_str())
}

/// A list holding one node kind.
fn one_kind(kind: &str) -> (res: Vec<String>)
    ensures
        string_views(res@) == seq![kind@],
{
    let mut kinds = Vec::new();
    kinds.push(kind.to_owned());
    assert(string_views(kinds@) =~= seq![kind@]);
    kinds
}

/// A list holding two node kinds.
fn two_kinds(first: &str, second: &str) -> (res: Vec<String>)
    ensures
        string_views(res@) == seq![first@, second@],
{
    let mut kinds = Vec::new();
    kinds.push(first.to_owned());
    kinds.push(second.to_owned());
    assert(string_views(kinds@) =~= seq![first@, second@]);
    kinds
}

/// The node kinds that `alias` stands for in `language`.
pub fn node_kinds_for_alias(language: SupportedLanguage, alias: &str) -> (res: Vec<String>)
    ensures
        string_views(res@) == alias_kinds(language, alias@),
{
    if str_equal(alias, "function") {
        match language {
            SupportedLanguage::Rust => one_kind("function_item"),
            SupportedLanguage::Python => one_kind("function_definition"),
            _ => two_kinds("function_declaration", "method_definition"),
        }
    } else if str_equal(alias, "class") && language != SupportedLanguage::Rust {
        match language {
            SupportedLanguage::Python => one_kind("class_definition"),
            _ => one_kind("class_declaration"),
        }
    } else if language == SupportedLanguage::Rust && str_equal(alias, "struct") {
        one_kind("struct_item")
    } else if language == SupportedLanguage::Rust && str_equal(alias, "impl") {
        one_kind("impl_item")
    } else if language == SupportedLanguage::Rust && str_equal(alias, "enum") {
        one_kind("enum_item")
    } else if language == SupportedLanguage::TypeScript && str_equal(alias, "interface") {
        one_kind("interface_declaration")
    } else {
        one_kind(alias)
    }
}

/// Whether `kind` is one of `kinds`.
fn kind_listed(kinds: &Vec<String>, kind: &String) -> (res: bool)
    ensures
        res == string_views(kinds@).contains(kind@),
{
    let mut i: usize = 0;
    while i < kinds.len()
        invariant
            0 <= i <= kinds@.len(),
            forall|j: int| 0 <= j < i ==> kinds@[j]@ != kind@,
        decreases kinds@.len() - i,
    {
        if str_equal(kinds[i].as_str(), kind.as_str()) {
            assert(string_views(kinds@)[i as int] == kind@);
            return true;
        }
        i = i + 1;
    }
    assert forall|j: int| 0 <= j < string_views(kinds@).len() implies string_views(kinds@)[j] != kind@ by {
        assert(kinds@[j]@ != kind@);
    }
    false
}

/// The nearest node, from node `start` up through its ancestors, whose kind
/// is one of `kinds`.
fn nearest_of_kind(tree: &SyntaxTree, start: usize, kinds: &Vec<String>) -> (res: Option<usize>)
    requires
        tree_linked(tree.nodes@),
        start < tree.nodes@.len(),
    ensures
        match res {
            Some(n) => enclosing_of_kind(tree.nodes@, start as int, string_views(kinds@)) == Some(n as int)
                && n < tree.nodes@.len(),
            None => enclosing_of_kind(tree.nodes@, start as int, string_views(kinds@)) is None,
        },
{
    let ghost nodes = tree.nodes@;
    let mut current = start;
    loop
        invariant
            nodes == tree.nodes@,
            tree_linked(nodes),
            current < nodes.len(),
            enclosing_of_kind(nodes, start as int, string_views(kinds@)) == enclosing_of_kind(
                nodes,
                current as int,
                string_views(kinds@),
            ),
        decreases current,
    {
        if kind_listed(kinds, &tree.nodes[current].kind) {
            return Some(current);
        }
        assert(node_linked(nodes, current as int));
        match tree.nodes[current].parent {
            Some(parent) => {
                current = parent;
            },
            None => {
                return None;
            },
        }
    }
}

/// Whether `pattern` occurs in `text` at byte `i`.
fn occurs_at(text: &[u8], pattern: &[u8], i: usize) -> (res: bool)
    requires
        i + pattern@.len() <= text@.len(),
    ensures
        res == (text@.subrange(i as int, i + pattern@.len()) == pattern@),
{
    let mut j: usize = 0;
    while j < pattern.len()
        invariant
            i + pattern@.len() <= text@.len(),
            0 <= j <= pattern@.len(),
            forall|k: int| 0 <= k < j ==> text@[i + k] == pattern@[k],
        decreases pattern@.len() - j,
    {
        assert(i + j < text.len());
        if text[i + j] != pattern[j] {
            assert(text@.subrange(i as int, i + pattern@.len())[j as int] != pattern@[j as int]);
            return false;
        }
        j = j + 1;
    }
    assert(text@.subrange(i as int, i + pattern@.len()) =~= pattern@);
    true
}

/// Finds the node that probing `source` for `pattern` among `kinds` decides.
pub fn find_probe_hit(
    tree: &SyntaxTree,
    source: &str,
    pattern: &str,
    kinds: &Vec<String>,
) -> (res: Option<usize>)
    requires
        tree.well_formed(source.spec_bytes()),
        pattern@.len() > 0,
    ensures
        match res {
            Some(n) => probe_hit(tree.nodes@, source.spec_bytes(), pattern.spec_bytes(), string_views(kinds@))
                == Some(n as int) && n < tree.nodes@.len(),
            None => probe_hit(tree.nodes@, source.spec_bytes(), pattern.spec_bytes(), string_views(kinds@)) is None,
        },
{
    let text = source.as_bytes();
    let pat = pattern.as_bytes();
    let ghost nodes = tree.nodes@;
    let ghost views = string_views(kinds@);
    let plen = pat.len();
    let mut i: usize = 0;
    assert(pat@.len() > 0);
    while plen <= text.len() && i <= text.len() - plen
        invariant
            nodes == tree.nodes@,
            tree_linked(nodes),
            text@ == source.spec_bytes(),
            pat@ == pattern.spec_bytes(),
            plen == pat@.len(),
            plen > 0,
            views == string_views(kinds@),
            0 <= i <= text@.len(),
            probe_hit(nodes, text@, pat@, views) == first_hit(nodes, occurrences(text@, pat@, i as int), plen as int, views),
        decreases text@.len() - i,
    {
        if occurs_at(text, pat, i) {
            let ghost rest = occurrences(text@, pat@, i + plen);
            assert(occurrences(text@, pat@, i as int) == seq![i as int] + rest);
            assert((seq![i as int] + rest).drop_first() =~= rest);
            assert((seq![i as int] + rest)[0] == i as int);
            match find_covering_node(tree, 0, i, i + plen) {
                Some(n) => {
                    match nearest_of_kind(tree, n, kinds) {
                        Some(m) => {
                            return Some(m);
                        },
                        None => {},
                    }
                },
                None => {},
            }
            i = i + plen;
        } else {
            i = i + 1;
        }
    }
    assert(occurrences(text@, pat@, i as int) =~= Seq::<int>::empty());
    None
}

/// Builds the answer that reports `node`.
pub fn valid_response(node: &SyntaxNode) -> (res: ProbeResponse)
    requires
        node.start_row < usize::MAX,
        node.end_row < usize::MAX,
    ensures
        res == response_for(*node),
{
    ProbeResponse {
        is_valid: true,
        node_type: Some(node.kind.clone()),
        start_line: Some(node.start_row + 1),
        end_line: Some(node.end_row + 1),
    }
}

/// Probes a parsed tree of `source` for `pattern` among `kinds`.
pub fn probe_syntax_tree(
    tree: &SyntaxTree,
    source: &str,
    pattern: &str,
    kinds: &Vec<String>,
) -> (res: ProbeResponse)
    requires
        tree.well_formed(source.spec_bytes()),
        pattern@.len() > 0,
    ensures
        res == probe_outcome(tree.nodes@, source.spec_bytes(), pattern.spec_bytes(), string_views(kinds@)),
{
    match find_probe_hit(tree, source, pattern, kinds) {
        Some(n) => {
            assert(node_fits(tree.nodes@[n as int], source.spec_bytes()));
            valid_response(&tree.nodes[n])
        },
        None => ProbeResponse { is_valid: false, node_type: None, start_line: None, end_line: None },
    }
}

/// Cuts out of `source` the block of the node that probing a parsed tree
/// of `source` for `pattern` among `kinds` finds.
pub fn squeeze_syntax_tree(
    tree: &SyntaxTree,
    file: &String,
    source: &str,
    pattern: &str,
    kinds: &Vec<String>,
) -> (res: Option<SqueezeResponse>)
    requires
        tree.well_formed(source.spec_bytes()),
        pattern@.len() > 0,
    ensures
        match res {
            Some(r) => squeeze_outcome(tree.nodes@, *file, source.spec_bytes(), pattern.spec_bytes(), string_views(kinds@))
                == Some(squeeze_view(r)),
            None => squeeze_outcome(tree.nodes@, *file, source.spec_bytes(), pattern.spec_bytes(), string_views(kinds@)) is None,
        },
{
    match find_probe_hit(tree, source, pattern, kinds) {
        Some(n) => {
            let node = &tree.nodes[n];
            assert(node_fits(tree.nodes@[n as int], source.spec_bytes()));
            let text = substring(source, node.start_byte, node.end_byte);
            Some(
                SqueezeResponse {
                    file: file.clone(),
                    node_type: node.kind.clone(),
                    start_line: node.start_row + 1,
                    end_line: node.end_row + 1,
                    text,
                },
            )
        },
        None => None,
    }
}

/// Validates what can be validated of a probe before its file is read.
pub fn validate_probe_request(request: &ProbeRequest) -> (res: Result<(), ProbeError>)
    ensures
        res == probe_request_validity(request.file_path@, request.query_pattern@, request.node_type@),
{
    if request.file_path.as_str().is_empty() {
        return Err(ProbeError::MissingFilePath);
    }
    if request.query_pattern.as_str().is_empty() {
        return Err(ProbeError::MissingQueryPattern);
    }
    if request.node_type.as_str().is_empty() {
        return Err(ProbeError::MissingNodeType);
    }
    Ok(())
}

/// Probes `source`, the contents of the file that `request` names: is the
/// pattern inside a node of the requested type? The answer is the probe over
/// the breadth-first copy of tree-sitter's tree of `source`, which there is
/// exactly when tree-sitter gives a tree and that tree fits `source`.
pub fn ast_probe(request: &ProbeRequest, source: &str) -> (res: Result<ProbeResponse, ProbeError>)
    ensures
        probe_request_validity(request.file_path@, request.query_pattern@, request.node_type@) matches Err(e)
            ==> res == Err::<ProbeResponse, ProbeError>(e),
        probe_request_validity(request.file_path@, request.query_pattern@, request.node_type@) is Ok
            ==> match extension_language(path_extension(request.file_path@)) {
            None => res matches Err(ProbeError::UnsupportedFileExtension(e)) && e@ == path_extension(
                request.file_path@,
            ),
            Some(language) => {
                &&& res is Ok <==> parse_fits(language, source.spec_bytes())
                &&& res matches Ok(response) ==> exists|tree: SyntaxTree|
                    {
                        &&& tree.well_formed(source.spec_bytes())
                        &&& parsed_nodes(tree.nodes@, language, source.spec_bytes())
                        &&& response == probe_outcome(
                            tree.nodes@,
                            source.spec_bytes(),
                            encode_utf8(request.query_pattern@),
                            alias_kinds(language, request.node_type@),
                        )
                    }
                &&& res matches Err(e) ==> e is Parse
            },
        },
{
    if request.file_path.as_str().is_empty() {
        return Err(ProbeError::MissingFilePath);
    }
    if request.query_pattern.as_str().is_empty() {
        return Err(ProbeError::MissingQueryPattern);
    }
    if request.node_type.as_str().is_empty() {
        return Err(ProbeError::MissingNodeType);
    }
    let language = language_for_path(request.file_path.as_str())?;
    let kinds = node_kinds_for_alias(language, request.node_type.as_str());
    let tree = parse_syntax_tree(language, source)?;
    Ok(probe_syntax_tree(&tree, source, request.query_pattern.as_str(), &kinds))
}

/// Returns the block of `source`, the contents of the file that `request`
/// names, of the node that a probe with the same request finds: as for
/// [`ast_probe`], over the breadth-first copy of tree-sitter's tree of
/// `source`.
pub fn squeeze(
    request: &SqueezeRequest,
    source: &str,
) -> (res: Result<Option<SqueezeResponse>, ProbeError>)
    ensures
        probe_request_validity(request.file_path@, request.query_pattern@, request.node_type@) matches Err(e)
            ==> res == Err::<Option<SqueezeResponse>, ProbeError>(e),
        probe_request_validity(request.file_path@, request.query_pattern@, request.node_type@) is Ok
            ==> match extension_language(path_extension(request.file_path@)) {
            None => res matches Err(ProbeError::UnsupportedFileExtension(e)) && e@ == path_extension(
                request.file_path@,
            ),
            Some(language) => {
                &&& res is Ok <==> parse_fits(language, source.spec_bytes())
                &&& res matches Ok(answer) ==> exists|tree: SyntaxTree|
                    {
                        &&& tree.well_formed(source.spec_bytes())
                        &&& parsed_nodes(tree.nodes@, language, source.spec_bytes())
                        &&& squeeze_outcome(
                            tree.nodes@,
                            request.file_path,
                            source.spec_bytes(),
                            encode_utf8(request.query_pattern@),
                            alias_kinds(language, request.node_type@),
                        ) == match answer {
                            Some(r) => Some(squeeze_view(r)),
                            None => None,
                        }
                    }
                &&& res matches Err(e) ==> e is Parse
            },
        },
{
    if request.file_path.as_str().is_empty() {
        return Err(ProbeError::MissingFilePath);
    }
    if request.query_pattern.as_str().is_empty() {
        return Err(ProbeError::MissingQueryPattern);
    }
    if request.node_type.as_str().is_empty() {
        return Err(ProbeError::MissingNodeType);
    }
    let language = language_for_path(request.file_path.as_str())?;
    let kinds = node_kinds_for_alias(language, request.node_type.as_str());
    let tree = parse_syntax_tree(language, source)?;
    Ok(squeeze_syntax_tree(&tree, &request.file_path, source, request.query_pattern.as_str(), &kinds))
}

/// What checking the syntax of `text`, the new contents of the file at
/// `path`, gives: `None` for a file of no supported language; otherwise
/// whether the root of tree-sitter's tree holds no error, or the parse
/// failure when tree-sitter gives no tree.
pub open spec fn syntax_validity(path: Seq<char>, text: Seq<u8>) -> Result<Option<bool>, ProbeError> {
    match extension_language(path_extension(path)) {
        None => Ok(None),
        Some(language) => if ts_parses(language, text) {
            Ok(Some(!ts_has_error(language, text, Seq::<u32>::empty())))
        } else {
            Err(ProbeError::Parse)
        },
    }
}

/// Whether `source` parses cleanly as the language of `path`: `None` when
/// the extension of `path` selects no supported language.
pub fn syntax_valid_for_path(path: &str, source: &str) -> (res: Result<Option<bool>, ProbeError>)
    ensures
        res == syntax_validity(path@, source.spec_bytes()),
{
    match language_for_path(path) {
        Ok(language) => match parses_cleanly(language, source) {
            Ok(clean) => Ok(Some(clean)),
            Err(_) => Err(ProbeError::Parse),
        },
        Err(_) => Ok(None),
    }
}

} // verus!
