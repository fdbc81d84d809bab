//! Renaming every whole-word occurrence of an identifier in a file, or only
//! inside the syntax node that a probe finds.
//!
//! An occurrence is whole-word when the bytes around it are not word bytes:
//! ASCII letters, digits and `_`, and every non-ASCII byte, since non-ASCII
//! characters may belong to identifiers. Occurrences are taken leftmost
//! first and never overlap.
use vstd::prelude::*;
use vstd::string::*;
use vstd::utf8::*;

use crate::grammar::{parse_fits, parse_syntax_tree, parsed_nodes};
use crate::probe::{
    alias_kinds, extension_language, find_probe_hit, language_for_path, node_kinds_for_alias,
    path_extension, probe_hit, syntax_valid_for_path, syntax_validity, ProbeError,
};
use crate::syntax::{node_fits, SyntaxTree};
use crate::text::{
    lemma_ascii_byte_boundaries, lemma_decode_spec_bytes, lemma_encode_utf8_concat, substring,
};

verus! {

broadcast use vstd::utf8::group_utf8_lib;

/// Rename `target` to `replacement` in a file; when both `node_type` and
/// `query_pattern` are given, only inside the node that probing for them
/// finds.
#[derive(Debug, Clone, PartialEq, Eq)]
pub struct RenameRequest {
    pub file_path: String,
    pub target: String,
    pub replacement: String,
    pub node_type: Option<String>,
    pub query_pattern: Option<String>,
}

/// What a rename did: the file, the length in bytes of its new contents, how
/// many occurrences it replaced, and whether the new contents parse (`None`
/// for unsupported file types).
#[derive(Debug, Clone, PartialEq, Eq)]
pub struct RenameResponse {
    pub file: String,
    pub bytes_written: usize,
    pub occurrences_renamed: usize,
    pub syntax_valid: Option<bool>,
}

/// The new contents of a renamed file, with the report on them.
#[derive(Debug, Clone, PartialEq, Eq)]
pub struct RenamedFile {
    pub response: RenameResponse,
    pub contents: String,
}

/// Why a rename was refused.
#[derive(Debug)]
pub enum RenameError {
    MissingFilePath,
    MissingTarget,
    ScopeNotFound,
    ReadSource(std::io::Error),
    WriteSource(std::io::Error),
    Probe(ProbeError),
}

/// A byte that can be part of a word.
pub open spec fn is_word_byte(b: u8) -> bool {
    ||| b >= 0x80
    ||| (0x30 <= b <= 0x39)
    ||| (0x41 <= b <= 0x5a)
    ||| (0x61 <= b <= 0x7a)
    ||| b == 0x5f
}

/// `target` occurs in `bytes` at `i` as a whole word.
pub open spec fn word_at(bytes: Seq<u8>, target: Seq<u8>, i: int) -> bool {
    &&& 0 <= i
    &&& i + target.len() <= bytes.len()
    &&& bytes.subrange(i, i + target.len()) == target
    &&& (i == 0 || !is_word_byte(bytes[i - 1]))
    &&& (i + target.len() == bytes.len() || !is_word_byte(bytes[i + target.len()]))
}

/// The bytes `i..end` of `bytes` with every whole-word occurrence of `target`
/// that lies inside them replaced, leftmost first, by `replacement`; and how
/// many were replaced.
pub open spec fn renamed(
    bytes: Seq<u8>,
    target: Seq<u8>,
    replacement: Seq<u8>,
    i: int,
    end: int,
) -> (Seq<u8>, nat)
    decreases end - i,
{
    if target.len() == 0 || i < 0 || i >= end {
        (bytes.subrange(i, end), 0)
    } else if i + target.len() <= end && word_at(bytes, target, i) {
        let (rest, count) = renamed(bytes, target, replacement, i + target.len(), end);
        (replacement + rest, count + 1)
    } else {
        let (rest, count) = renamed(bytes, target, replacement, i + 1, end);
        (seq![bytes[i]] + rest, count)
    }
}

/// `bytes` with the occurrences inside `start..end` replaced.
pub open spec fn renamed_text(
    bytes: Seq<u8>,
    target: Seq<u8>,
    replacement: Seq<u8>,
    start: int,
    end: int,
) -> Seq<u8> {
    bytes.subrange(0, start) + renamed(bytes, target, replacement, start, end).0 + bytes.subrange(
        end,
        bytes.len() as int,
    )
}

/// Renaming a word to itself leaves the text as it was.
pub proof fn renaming_to_itself_changes_nothing(
    bytes: Seq<u8>,
    target: Seq<u8>,
    start: int,
    end: int,
)
    requires
        0 <= start <= end <= bytes.len(),
    ensures
        renamed(bytes, target, target, start, end).0 == bytes.subrange(start, end),
        renamed_text(bytes, target, target, start, end) == bytes,
    decreases end - start,
{
    if target.len() == 0 || start >= end {
    } else if start + target.len() <= end && word_at(bytes, target, start) {
        renaming_to_itself_changes_nothing(bytes, target, start + target.len(), end);
        assert(bytes.subrange(start, end) =~= bytes.subrange(start, start + target.len())
            + bytes.subrange(start + target.len(), end));
    } else {
        renaming_to_itself_changes_nothing(bytes, target, start + 1, end);
        assert(bytes.subrange(start, end) =~= seq![bytes[start]] + bytes.subrange(start + 1, end));
    }
    assert(bytes.subrange(0, start) + bytes.subrange(start, end) + bytes.subrange(end, bytes.len() as int)
        =~= bytes);
}

/// A text in which the target has no whole-word occurrence inside the range
/// is left as it was, with no occurrence counted.
pub proof fn renaming_without_occurrence_changes_nothing(
    bytes: Seq<u8>,
    target: Seq<u8>,
    replacement: Seq<u8>,
    start: int,
    end: int,
)
    requires
        0 <= start <= end <= bytes.len(),
        forall|i: int| start <= i && i + target.len() <= end ==> !#[trigger] word_at(bytes, target, i),
    ensures
        renamed(bytes, target, replacement, start, end) == (bytes.subrange(start, end), 0nat),
        renamed_text(bytes, target, replacement, start, end) == bytes,
    decreases end - start,
{
    if target.len() == 0 || start >= end {
    } else {
        renaming_without_occurrence_changes_nothing(bytes, target, replacement, start + 1, end);
        assert(bytes.subrange(start, end) =~= seq![bytes[start]] + bytes.subrange(start + 1, end));
    }
    assert(bytes.subrange(0, start) + bytes.subrange(start, end) + bytes.subrange(end, bytes.len() as int)
        =~= bytes);
}

/// An occurrence is a whole word exactly when neither byte next to it is an
/// identifier byte: an ASCII letter or digit, `_`, or a byte of a non-ASCII
/// character.
pub proof fn whole_words_have_no_identifier_neighbours(bytes: Seq<u8>, target: Seq<u8>, i: int)
    ensures
        word_at(bytes, target, i) <==> {
            &&& 0 <= i
            &&& i + target.len() <= bytes.len()
            &&& bytes.subrange(i, i + target.len()) == target
            &&& (i == 0 || !({
                let b = bytes[i - 1];
                b == 0x5f || 0x30 <= b <= 0x39 || 0x41 <= b <= 0x5a || 0x61 <= b <= 0x7a || b >= 0x80
            }))
            &&& (i + target.len() == bytes.len() || !({
                let b = bytes[i + target.len()];
                b == 0x5f || 0x30 <= b <= 0x39 || 0x41 <= b <= 0x5a || 0x61 <= b <= 0x7a || b >= 0x80
            }))
        },
{
}

/// A rename never touches an identifier that properly contains the target:
/// when every occurrence of the target inside the range has an identifier
/// byte (an ASCII letter or digit, `_`, or a non-ASCII byte) right before or
/// right after it, the text is left as it was and nothing is counted.
pub proof fn renaming_spares_longer_identifiers(
    bytes: Seq<u8>,
    target: Seq<u8>,
    replacement: Seq<u8>,
    start: int,
    end: int,
)
    requires
        0 <= start <= end <= bytes.len(),
        forall|i: int|
            start <= i && i + target.len() <= end && #[trigger] bytes.subrange(i, i + target.len())
                == target ==> {
                ||| (i > 0 && {
                    let b = bytes[i - 1];
                    b == 0x5f || 0x30 <= b <= 0x39 || 0x41 <= b <= 0x5a || 0x61 <= b <= 0x7a || b
                        >= 0x80
                })
                ||| (i + target.len() < bytes.len() && {
                    let b = bytes[i + target.len()];
                    b == 0x5f || 0x30 <= b <= 0x39 || 0x41 <= b <= 0x5a || 0x61 <= b <= 0x7a || b
                        >= 0x80
                })
            },
    ensures
        renamed(bytes, target, replacement, start, end) == (bytes.subrange(start, end), 0nat),
        renamed_text(bytes, target, replacement, start, end) == bytes,
{
    assert forall|i: int| start <= i && i + target.len() <= end implies !#[trigger] word_at(
        bytes,
        target,
        i,
    ) by {
        if word_at(bytes, target, i) {
            assert(bytes.subrange(i, i + target.len()) == target);
        }
    }
    renaming_without_occurrence_changes_nothing(bytes, target, replacement, start, end);
}

/// Whether `target` occurs in `text` at `i` as a whole word.
fn word_occurs_at(text: &[u8], target: &[u8], i: usize) -> (res: bool)
    requires
        i + target@.len() <= text@.len(),
    ensures
        res == word_at(text@, target@, i as int),
{
    let t = target.len();
    let mut j: usize = 0;
    while j < t
        invariant
            t == target@.len(),
            i + t <= text@.len(),
            0 <= j <= t,
            forall|k: int| 0 <= k < j ==> text@[i + k] == target@[k],
        decreases t - j,
    {
        assert(i + j < text.len());
        if text[i + j] != target[j] {
            assert(text@.subrange(i as int, i + t)[j as int] != target@[j as int]);
            return false;
        }
        j = j + 1;
    }
    assert(text@.subrange(i as int, i + t) =~= target@);
    let before_ok = i == 0 || !is_word(text[i - 1]);
    let after_ok = i + t == text.len() || !is_word(text[i + t]);
    before_ok && after_ok
}

/// Whether `b` can be part of a word.
fn is_word(b: u8) -> (res: bool)
    ensures
        res == is_word_byte(b),
{
    b >= 0x80 || (0x30 <= b && b <= 0x39) || (0x41 <= b && b <= 0x5a) || (0x61 <= b && b <= 0x7a) || b
        == 0x5f
}

/// Replaces, inside the bytes `start..end` of `source`, every whole-word
/// occurrence of `target` by `replacement`; returns the new text and how many
/// occurrences were replaced.
pub fn rename_in_range(
    source: &str,
    start: usize,
    end: usize,
    target: &str,
    replacement: &str,
) -> (res: (String, usize))
    requires
        start <= end <= source.spec_bytes().len(),
        is_char_boundary(source.spec_bytes(), start as int),
        is_char_boundary(source.spec_bytes(), end as int),
        target@.len() > 0,
    ensures
        encode_utf8(res.0@) == renamed_text(
            source.spec_bytes(),
            target.spec_bytes(),
            replacement.spec_bytes(),
            start as int,
            end as int,
        ),
        res.1 == renamed(source.spec_bytes(), target.spec_bytes(), replacement.spec_bytes(), start as int, end as int).1,
{
    let text = source.as_bytes();
    let pattern = target.as_bytes();
    let ghost b = text@;
    let ghost p = pattern@;
    let ghost r = replacement.spec_bytes();
    let ghost whole = renamed(b, p, r, start as int, end as int);
    let t = pattern.len();
    let mut out = String::new();
    let mut segment: usize = 0;
    let mut i: usize = start;
    let mut count: usize = 0;
    assert(b.subrange(0, start as int) =~= b.subrange(segment as int, i as int));
    while i < end
        invariant
            b == text@,
            b == source.spec_bytes(),
            p == pattern@,
            r == replacement.spec_bytes(),
            t == p.len(),
            t > 0,
            end <= b.len(),
            start <= i <= end,
            segment <= i,
            is_char_boundary(b, segment as int),
            is_char_boundary(b, end as int),
            whole == renamed(b, p, r, start as int, end as int),
            encode_utf8(out@) + b.subrange(segment as int, i as int) + renamed(b, p, r, i as int, end as int).0
                == b.subrange(0, start as int) + whole.0,
            count + renamed(b, p, r, i as int, end as int).1 == whole.1,
            count <= i,
        decreases end - i,
    {
        if t <= end - i && word_occurs_at(text, pattern, i) {
            proof {
                if i > 0 {
                    lemma_ascii_byte_boundaries(b, i - 1);
                }
                if i + t < b.len() {
                    lemma_ascii_byte_boundaries(b, i + t);
                }
            }
            let piece = substring(source, segment, i);
            let ghost before = out@;
            out.append(piece.as_str());
            out.append(replacement);
            proof {
                lemma_encode_utf8_concat(before, piece@);
                lemma_encode_utf8_concat(before + piece@, replacement@);
                let rest = renamed(b, p, r, i + t, end as int);
                assert(renamed(b, p, r, i as int, end as int) == (r + rest.0, rest.1 + 1));
                assert(b.subrange(i + t, i + t) =~= Seq::<u8>::empty());
                assert(encode_utf8(out@) + b.subrange(i + t, i + t) + rest.0 =~= encode_utf8(before)
                    + b.subrange(segment as int, i as int) + (r + rest.0));
            }
            segment = i + t;
            i = i + t;
            count = count + 1;
        } else {
            proof {
                let rest = renamed(b, p, r, i + 1, end as int);
                assert(renamed(b, p, r, i as int, end as int) == (seq![b[i as int]] + rest.0, rest.1));
                assert(b.subrange(segment as int, i + 1) =~= b.subrange(segment as int, i as int) + seq![
                    b[i as int],
                ]);
            }
            i = i + 1;
        }
    }
    let tail = substring(source, segment, text.len());
    let ghost before = out@;
    out.append(tail.as_str());
    proof {
        lemma_encode_utf8_concat(before, tail@);
        assert(renamed(b, p, r, i as int, end as int).0 == b.subrange(end as int, end as int));
        assert(b.subrange(segment as int, b.len() as int) =~= b.subrange(segment as int, end as int)
            + b.subrange(end as int, b.len() as int));
        assert(b.subrange(segment as int, i as int) + b.subrange(end as int, end as int) =~= b.subrange(
            segment as int,
            end as int,
        ));
        assert(encode_utf8(out@) =~= renamed_text(b, p, r, start as int, end as int));
    }
    (out, count)
}

/// The report on a rename of the bytes `start..end` of `bytes` into
/// `contents`.
pub open spec fn rename_report(
    request: RenameRequest,
    bytes: Seq<u8>,
    start: int,
    end: int,
    renamed_file: RenamedFile,
) -> bool {
    let target = encode_utf8(request.target@);
    let replacement = encode_utf8(request.replacement@);
    &&& encode_utf8(renamed_file.contents@) == renamed_text(bytes, target, replacement, start, end)
    &&& renamed_file.response.occurrences_renamed == renamed(bytes, target, replacement, start, end).1
    &&& renamed_file.response.file == request.file_path
    &&& renamed_file.response.bytes_written == encode_utf8(renamed_file.contents@).len()
}

/// What renaming the bytes `start..end` of `bytes` as `request` asks gives:
/// the new contents with their report, whose syntax flag is the check of the
/// new contents, or the failure of that check.
pub open spec fn rename_outcome(
    request: RenameRequest,
    bytes: Seq<u8>,
    start: int,
    end: int,
    res: Result<RenamedFile, RenameError>,
) -> bool {
    let updated = renamed_text(
        bytes,
        encode_utf8(request.target@),
        encode_utf8(request.replacement@),
        start,
        end,
    );
    match syntax_validity(request.file_path@, updated) {
        Err(p) => res == Err::<RenamedFile, RenameError>(RenameError::Probe(p)),
        Ok(valid) => match res {
            Ok(renamed_file) => rename_report(request, bytes, start, end, renamed_file)
                && renamed_file.response.syntax_valid == valid,
            Err(_) => false,
        },
    }
}

/// What renaming as `request` asks in a file holding `source` gives: the
/// outcome of renaming inside the range that the rename covers, or why
/// there is no such range.
pub open spec fn rename_result(
    request: RenameRequest,
    source: Seq<char>,
    res: Result<RenamedFile, RenameError>,
) -> bool {
    let bytes = encode_utf8(source);
    if request.file_path@.len() == 0 {
        res == Err::<RenamedFile, RenameError>(RenameError::MissingFilePath)
    } else if request.target@.len() == 0 {
        res == Err::<RenamedFile, RenameError>(RenameError::MissingTarget)
    } else {
        exists|scope: Result<(usize, usize), RenameError>|
            #![trigger scope_result(request, bytes, scope)]
            scope_result(request, bytes, scope) && match scope {
                Err(e) => res == Err::<RenamedFile, RenameError>(e),
                Ok((start, end)) => rename_outcome(request, bytes, start as int, end as int, res),
            }
    }
}

/// Validates what can be validated of a rename request before its file is read.
pub fn validate_rename_request(request: &RenameRequest) -> (res: Result<(), RenameError>)
    ensures
        request.file_path@.len() == 0 ==> res == Err::<(), RenameError>(RenameError::MissingFilePath),
        request.file_path@.len() != 0 && request.target@.len() == 0 ==> res == Err::<(), RenameError>(
            RenameError::MissingTarget,
        ),
        request.file_path@.len() != 0 && request.target@.len() != 0 ==> res == Ok::<(), RenameError>(()),
{
    if request.file_path.as_str().is_empty() {
        return Err(RenameError::MissingFilePath);
    }
    if request.target.as_str().is_empty() {
        return Err(RenameError::MissingTarget);
    }
    Ok(())
}

/// The byte range that a rename of `bytes` as `request` asks covers: the
/// whole text, or the block of the node that a probe over the breadth-first
/// copy of tree-sitter's tree finds; or why there is none.
pub open spec fn scope_result(
    request: RenameRequest,
    bytes: Seq<u8>,
    res: Result<(usize, usize), RenameError>,
) -> bool {
    match (request.node_type, request.query_pattern) {
        (Some(node_type), Some(query)) => if query@.len() == 0 {
            res == Err::<(usize, usize), RenameError>(
                RenameError::Probe(ProbeError::MissingQueryPattern),
            )
        } else if node_type@.len() == 0 {
            res == Err::<(usize, usize), RenameError>(
                RenameError::Probe(ProbeError::MissingNodeType),
            )
        } else {
            match extension_language(path_extension(request.file_path@)) {
                None => res matches Err(
                    RenameError::Probe(ProbeError::UnsupportedFileExtension(e)),
                ) && e@ == path_extension(request.file_path@),
                Some(language) => {
                    let kinds = alias_kinds(language, node_type@);
                    if !parse_fits(language, bytes) {
                        res == Err::<(usize, usize), RenameError>(
                            RenameError::Probe(ProbeError::Parse),
                        )
                    } else {
                        exists|tree: SyntaxTree|
                            #![trigger parsed_nodes(tree.nodes@, language, bytes)]
                            {
                                &&& tree.well_formed(bytes)
                                &&& parsed_nodes(tree.nodes@, language, bytes)
                                &&& match probe_hit(
                                    tree.nodes@,
                                    bytes,
                                    encode_utf8(query@),
                                    kinds,
                                ) {
                                    None => res == Err::<(usize, usize), RenameError>(
                                        RenameError::ScopeNotFound,
                                    ),
                                    Some(n) => res == Ok::<(usize, usize), RenameError>(
                                        (tree.nodes@[n].start_byte, tree.nodes@[n].end_byte),
                                    ),
                                }
                            }
                    }
                },
            }
        },
        _ => res matches Ok((start, end)) && start == 0 && end == bytes.len(),
    }
}

/// The byte range that a rename covers: the whole text, or the block of the
/// node that probing for `node_type` and `query` finds.
fn rename_scope(request: &RenameRequest, source: &str) -> (res: Result<(usize, usize), RenameError>)
    requires
        request.file_path@.len() > 0,
    ensures
        scope_result(*request, source.spec_bytes(), res),
        res matches Ok((start, end)) ==> start <= end <= source.spec_bytes().len()
            && is_char_boundary(source.spec_bytes(), start as int) && is_char_boundary(
            source.spec_bytes(),
            end as int,
        ),
{
    match (&request.node_type, &request.query_pattern) {
        (Some(node_type), Some(query)) => {
            if query.as_str().is_empty() {
                return Err(RenameError::Probe(ProbeError::MissingQueryPattern));
            }
            if node_type.as_str().is_empty() {
                return Err(RenameError::Probe(ProbeError::MissingNodeType));
            }
            let language = match language_for_path(request.file_path.as_str()) {
                Ok(language) => language,
                Err(error) => return Err(RenameError::Probe(error)),
            };
            let kinds = node_kinds_for_alias(language, node_type.as_str());
            let tree = match parse_syntax_tree(language, source) {
                Ok(tree) => tree,
                Err(_) => return Err(RenameError::Probe(ProbeError::Parse)),
            };
            let ghost bytes = source.spec_bytes();
            assert(parsed_nodes(tree.nodes@, language, bytes));
            match find_probe_hit(&tree, source, query.as_str(), &kinds) {
                Some(n) => {
                    assert(node_fits(tree.nodes@[n as int], source.spec_bytes()));
                    let node = &tree.nodes[n];
                    assert(tree.nodes@[n as int] == *node);
                    Ok((node.start_byte, node.end_byte))
                },
                None => Err(RenameError::ScopeNotFound),
            }
        },
        _ => Ok((0, source.as_bytes().len())),
    }
}

/// Renames as `request` asks in `source`, the contents of the file it names:
/// the new contents, and the report on them. A scoped rename renames inside
/// the node that a probe finds over the breadth-first copy of tree-sitter's
/// tree of `source`; the syntax flag is whether the root of tree-sitter's
/// tree of the new contents holds no error.
pub fn apply_rename(
    request: &RenameRequest,
    source: &str,
) -> (res: Result<RenamedFile, RenameError>)
    ensures
        rename_result(*request, source@, res),
{
    if request.file_path.as_str().is_empty() {
        return Err(RenameError::MissingFilePath);
    }
    if request.target.as_str().is_empty() {
        return Err(RenameError::MissingTarget);
    }
    let ghost bytes = source.spec_bytes();
    let scope = rename_scope(request, source);
    assert(scope_result(*request, bytes, scope));
    let (start, end) = match scope {
        Ok(range) => range,
        Err(error) => return Err(error),
    };
    let target = request.target.as_str();
    let replacement = request.replacement.as_str();
    let (contents, occurrences_renamed) = rename_in_range(source, start, end, target, replacement);
    let syntax_valid = match syntax_valid_for_path(request.file_path.as_str(), contents.as_str()) {
        Ok(valid) => valid,
        Err(error) => return Err(RenameError::Probe(error)),
    };
    let bytes_written = contents.as_str().as_bytes().len();
    let file = request.file_path.clone();
    let result = RenamedFile {
        response: RenameResponse { file, bytes_written, occurrences_renamed, syntax_valid },
        contents,
    };
    assert(rename_report(*request, bytes, start as int, end as int, result));
    Ok(result)
}

} // verus!
