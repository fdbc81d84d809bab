//! Precise text patches addressed by 1-based line and column coordinates.
//!
//! A coordinate names a byte: line `l` starts right after the `(l - 1)`-th
//! newline of the file (line 1 starts at byte 0), and column `c` is the byte
//! `c - 1` places after the start of its line. A column may point at the
//! newline that ends its line, or at the end of the file on the last line,
//! but no further, and it must fall on a character boundary. The end
//! coordinate of a patch is exclusive.
use vstd::prelude::*;
use vstd::string::*;
use vstd::utf8::*;

use crate::parsed::ts_has_error;
use crate::probe::{extension_language, path_extension, syntax_valid_for_path, syntax_validity, ProbeError};
use crate::text::{
    lemma_ascii_byte_boundaries, lemma_boundary_at_join, lemma_encode_utf8_injective,
    lemma_newline_count_monotone, lemma_newline_count_step, lemma_take_full, newline_count,
    splice_str, NEWLINE,
};

verus! {

broadcast use vstd::utf8::group_utf8_lib;

/// A replacement of the text between two coordinates of a file.
#[derive(Debug, Clone, PartialEq, Eq)]
pub struct PatchRequest {
    pub file_path: String,
    pub start_line: usize,
    pub start_column: usize,
    pub end_line: usize,
    pub end_column: usize,
    pub replacement: String,
}

/// What a patch did: the file, the length in bytes of its new contents, and
/// whether the new contents parse (`None` for unsupported file types).
#[derive(Debug, Clone, PartialEq, Eq)]
pub struct PatchResponse {
    pub file: String,
    pub bytes_written: usize,
    pub syntax_valid: Option<bool>,
}

/// The new contents of a patched file, with the report on them.
#[derive(Debug, Clone, PartialEq, Eq)]
pub struct PatchedFile {
    pub response: PatchResponse,
    pub contents: String,
}

/// Why a patch was refused.
#[derive(Debug)]
pub enum PatchError {
    MissingFilePath,
    ZeroCoordinate,
    ReversedRange,
    LineOutOfRange(usize),
    ColumnOutOfRange { line: usize, column: usize },
    InvalidUtf8Boundary { line: usize, column: usize },
    ReadSource(std::io::Error),
    WriteSource(std::io::Error),
    Probe(ProbeError),
}

/// What validating a request before reading its file gives.
pub open spec fn patch_request_validity(request: PatchRequest) -> Result<(), PatchError> {
    if request.file_path@.len() == 0 {
        Err(PatchError::MissingFilePath)
    } else if request.start_line == 0 || request.start_column == 0 || request.end_line == 0
        || request.end_column == 0 {
        Err(PatchError::ZeroCoordinate)
    } else {
        Ok(())
    }
}

/// Line `line` of `bytes` exists.
pub open spec fn has_line(bytes: Seq<u8>, line: int) -> bool {
    line == 1 || (line > 1 && newline_count(bytes) >= line - 1)
}

/// Line `line` of `bytes` starts at byte `offset`.
pub open spec fn starts_line(bytes: Seq<u8>, line: int, offset: int) -> bool {
    if line == 1 {
        offset == 0
    } else {
        &&& line > 1
        &&& 0 < offset <= bytes.len()
        &&& bytes[offset - 1] == NEWLINE
        &&& newline_count(bytes.take(offset)) == line - 1
    }
}

/// The line that starts at byte `start` ends at byte `end`: at its newline,
/// or at the end of the text.
pub open spec fn ends_line(bytes: Seq<u8>, start: int, end: int) -> bool {
    &&& start <= end <= bytes.len()
    &&& forall|k: int| start <= k < end ==> bytes[k] != NEWLINE
    &&& end < bytes.len() ==> bytes[end] == NEWLINE
}

/// The byte at which line `line` starts.
pub open spec fn line_start_of(bytes: Seq<u8>, line: int) -> int {
    choose|offset: int| starts_line(bytes, line, offset)
}

/// The byte at which the line starting at `start` ends.
pub open spec fn line_end_of(bytes: Seq<u8>, start: int) -> int {
    choose|end: int| ends_line(bytes, start, end)
}

/// The byte that the coordinate (`line`, `column`) names in `bytes`, or why
/// it names none. `column` is at least 1.
pub open spec fn locate(bytes: Seq<u8>, line: usize, column: usize) -> Result<usize, PatchError> {
    if !has_line(bytes, line as int) {
        Err(PatchError::LineOutOfRange(line))
    } else {
        let start = line_start_of(bytes, line as int);
        let end = line_end_of(bytes, start);
        let offset = start + column - 1;
        if offset > end {
            Err(PatchError::ColumnOutOfRange { line, column })
        } else if !is_char_boundary(bytes, offset) {
            Err(PatchError::InvalidUtf8Boundary { line, column })
        } else {
            Ok(offset as usize)
        }
    }
}

/// A line starts at one byte only.
pub proof fn lemma_starts_line_unique(bytes: Seq<u8>, line: int, a: int, b: int)
    requires
        starts_line(bytes, line, a),
        starts_line(bytes, line, b),
    ensures
        a == b,
{
    if line > 1 && a != b {
        let (lo, hi) = if a < b {
            (a, b)
        } else {
            (b, a)
        };
        lemma_newline_count_step(bytes, hi - 1);
        lemma_newline_count_monotone(bytes, lo, hi - 1);
    }
}

/// A line ends at one byte only.
pub proof fn lemma_ends_line_unique(bytes: Seq<u8>, start: int, a: int, b: int)
    requires
        ends_line(bytes, start, a),
        ends_line(bytes, start, b),
    ensures
        a == b,
{
}

/// Every existing line has a start, and from every start within the text the
/// line has an end; so each coordinate names at most one byte.
pub proof fn lemma_lines_are_located(bytes: Seq<u8>, line: int)
    requires
        has_line(bytes, line),
    ensures
        starts_line(bytes, line, line_start_of(bytes, line)),
        0 <= line_start_of(bytes, line) <= bytes.len(),
        ends_line(bytes, line_start_of(bytes, line), line_end_of(bytes, line_start_of(bytes, line))),
{
    let o = first_start(bytes, line);
    lemma_starts_line_unique(bytes, line, o, line_start_of(bytes, line));
    let e = first_end(bytes, o);
}

/// Finds a start of an existing line, by walking the text.
proof fn first_start(bytes: Seq<u8>, line: int) -> (o: int)
    requires
        has_line(bytes, line),
    ensures
        starts_line(bytes, line, o),
        0 <= o <= bytes.len(),
{
    if line == 1 {
        0
    } else {
        assert(bytes.take(0) =~= Seq::<u8>::empty());
        first_start_from(bytes, line, 0)
    }
}

/// Finds the start of line `line`, which lies after byte `i`.
proof fn first_start_from(bytes: Seq<u8>, line: int, i: int) -> (o: int)
    requires
        line > 1,
        0 <= i <= bytes.len(),
        newline_count(bytes.take(i)) < line - 1,
        newline_count(bytes) >= line - 1,
    ensures
        starts_line(bytes, line, o),
        i < o <= bytes.len(),
    decreases bytes.len() - i,
{
    lemma_take_full(bytes);
    if i == bytes.len() {
        assert(false);
    }
    lemma_newline_count_step(bytes, i);
    if bytes[i] == NEWLINE && newline_count(bytes.take(i + 1)) == line - 1 {
        i + 1
    } else {
        first_start_from(bytes, line, i + 1)
    }
}

/// Finds the end of the line starting at `start`.
proof fn first_end(bytes: Seq<u8>, start: int) -> (e: int)
    requires
        0 <= start <= bytes.len(),
    ensures
        ends_line(bytes, start, e),
    decreases bytes.len() - start,
{
    if start == bytes.len() || bytes[start] == NEWLINE {
        start
    } else {
        first_end(bytes, start + 1)
    }
}

/// Validates what can be validated of a patch request before its file is read.
pub fn validate_request(request: &PatchRequest) -> (res: Result<(), PatchError>)
    ensures
        res == patch_request_validity(*request),
{
    if request.file_path.as_str().is_empty() {
        return Err(PatchError::MissingFilePath);
    }
    if request.start_line == 0 || request.start_column == 0 || request.end_line == 0
        || request.end_column == 0 {
        return Err(PatchError::ZeroCoordinate);
    }
    Ok(())
}

/// The byte at which line `target_line` of `source` starts.
pub fn line_start_offset(source: &str, target_line: usize) -> (res: Result<usize, PatchError>)
    ensures
        res is Ok <==> has_line(source.spec_bytes(), target_line as int),
        res matches Ok(offset) ==> starts_line(source.spec_bytes(), target_line as int, offset as int)
            && offset == line_start_of(source.spec_bytes(), target_line as int),
        res is Err ==> res == Err::<usize, PatchError>(PatchError::LineOutOfRange(target_line)),
{
    let bytes = source.as_bytes();
    let ghost b = bytes@;
    if target_line == 1 {
        proof {
            lemma_starts_line_unique(b, 1, 0, line_start_of(b, 1));
        }
        return Ok(0);
    }
    if target_line == 0 {
        return Err(PatchError::LineOutOfRange(target_line));
    }
    let mut current_line: usize = 1;
    let mut index: usize = 0;
    assert(b.take(0) =~= Seq::<u8>::empty());
    while index < bytes.len()
        invariant
            b == bytes@,
            b == source.spec_bytes(),
            target_line != 1,
            0 <= index <= b.len(),
            current_line == newline_count(b.take(index as int)) + 1,
            current_line < target_line,
        decreases b.len() - index,
    {
        proof {
            lemma_newline_count_step(b, index as int);
        }
        if bytes[index] == NEWLINE {
            current_line = current_line + 1;
            if current_line == target_line {
                proof {
                    assert(starts_line(b, target_line as int, index + 1));
                    lemma_starts_line_unique(
                        b,
                        target_line as int,
                        index + 1,
                        line_start_of(b, target_line as int),
                    );
                    lemma_newline_count_monotone(b, index + 1, b.len() as int);
                    lemma_take_full(b);
                }
                return Ok(index + 1);
            }
        }
        index = index + 1;
    }
    proof {
        lemma_take_full(b);
    }
    Err(PatchError::LineOutOfRange(target_line))
}

/// The byte at which the line starting at `line_start` ends: the position of
/// its newline, or the end of `source`.
pub fn line_end_offset(source: &str, line_start: usize) -> (res: usize)
    requires
        line_start <= source.spec_bytes().len(),
        is_char_boundary(source.spec_bytes(), line_start as int),
    ensures
        ends_line(source.spec_bytes(), line_start as int, res as int),
        res == line_end_of(source.spec_bytes(), line_start as int),
{
    let bytes = source.as_bytes();
    let ghost b = bytes@;
    let mut index = line_start;
    while index < bytes.len()
        invariant
            b == bytes@,
            b == source.spec_bytes(),
            line_start <= index <= b.len(),
            forall|k: int| line_start <= k < index ==> b[k] != NEWLINE,
        decreases b.len() - index,
    {
        if bytes[index] == NEWLINE {
            proof {
                lemma_ends_line_unique(b, line_start as int, index as int, line_end_of(b, line_start as int));
            }
            return index;
        }
        index = index + 1;
    }
    proof {
        lemma_ends_line_unique(b, line_start as int, index as int, line_end_of(b, line_start as int));
    }
    index
}

/// The byte that the coordinate (`line`, `column`) names in `source`.
pub fn byte_offset(source: &str, line: usize, column: usize) -> (res: Result<usize, PatchError>)
    requires
        column >= 1,
    ensures
        res == locate(source.spec_bytes(), line, column),
        res matches Ok(offset) ==> offset <= source.spec_bytes().len() && is_char_boundary(
            source.spec_bytes(),
            offset as int,
        ),
{
    let ghost b = source.spec_bytes();
    let line_start = line_start_offset(source, line)?;
    proof {
        if line_start > 0 {
            lemma_ascii_byte_boundaries(b, line_start - 1);
        }
    }
    let line_end = line_end_offset(source, line_start);
    let column_offset = column - 1;
    if column_offset > line_end - line_start {
        return Err(PatchError::ColumnOutOfRange { line, column });
    }
    let offset = line_start + column_offset;
    if !source.is_char_boundary(offset) {
        return Err(PatchError::InvalidUtf8Boundary { line, column });
    }
    Ok(offset)
}

/// `contents` is `bytes` with the bytes `start..end` replaced by `replacement`.
pub open spec fn spliced(
    bytes: Seq<u8>,
    start: int,
    end: int,
    replacement: Seq<u8>,
    contents: Seq<u8>,
) -> bool {
    contents == bytes.subrange(0, start) + replacement + bytes.subrange(end, bytes.len() as int)
}

/// What applying `request` to a file holding `source` gives, once the
/// request has passed [`validate_request`].
pub open spec fn patch_result(
    request: PatchRequest,
    source: Seq<char>,
    res: Result<PatchedFile, PatchError>,
) -> bool {
    let bytes = encode_utf8(source);
    match locate(bytes, request.start_line, request.start_column) {
        Err(e) => res == Err::<PatchedFile, PatchError>(e),
        Ok(start) => match locate(bytes, request.end_line, request.end_column) {
            Err(e) => res == Err::<PatchedFile, PatchError>(e),
            Ok(end) => if end < start {
                res == Err::<PatchedFile, PatchError>(PatchError::ReversedRange)
            } else {
                let updated = bytes.subrange(0, start as int) + encode_utf8(request.replacement@)
                    + bytes.subrange(end as int, bytes.len() as int);
                match syntax_validity(request.file_path@, updated) {
                    Err(p) => res == Err::<PatchedFile, PatchError>(PatchError::Probe(p)),
                    Ok(valid) => match res {
                        Ok(patched) => {
                            &&& spliced(
                                bytes,
                                start as int,
                                end as int,
                                encode_utf8(request.replacement@),
                                encode_utf8(patched.contents@),
                            )
                            &&& patched.response.file == request.file_path
                            &&& patched.response.bytes_written == encode_utf8(
                                patched.contents@,
                            ).len()
                            &&& patched.response.syntax_valid == valid
                        },
                        Err(_) => false,
                    },
                }
            },
        },
    }
}

/// Column 1 of an existing line names the byte at which the line starts.
pub proof fn column_one_is_line_start(bytes: Seq<u8>, line: usize)
    requires
        valid_utf8(bytes),
        bytes.len() <= usize::MAX,
        has_line(bytes, line as int),
    ensures
        locate(bytes, line, 1) == Ok::<usize, PatchError>(line_start_of(bytes, line as int) as usize),
{
    lemma_lines_are_located(bytes, line as int);
    let o = line_start_of(bytes, line as int);
    if o > 0 {
        lemma_ascii_byte_boundaries(bytes, o - 1);
    }
}

/// Replacing a range by the text that stands there changes nothing.
pub proof fn patch_with_present_text_is_identity(
    request: PatchRequest,
    source: Seq<char>,
    patched: PatchedFile,
    start: usize,
    end: usize,
)
    requires
        patch_request_validity(request) is Ok,
        patch_result(request, source, Ok(patched)),
        locate(encode_utf8(source), request.start_line, request.start_column) == Ok::<usize, PatchError>(start),
        locate(encode_utf8(source), request.end_line, request.end_column) == Ok::<usize, PatchError>(end),
        encode_utf8(request.replacement@) == encode_utf8(source).subrange(start as int, end as int),
    ensures
        patched.contents@ == source,
{
    let bytes = encode_utf8(source);
    assert(bytes.subrange(0, start as int) + bytes.subrange(start as int, end as int) + bytes.subrange(
        end as int,
        bytes.len() as int,
    ) =~= bytes);
    lemma_encode_utf8_injective(patched.contents@, source);
}

/// After a patch, the replacement stands in the new text where the range
/// began, and the start coordinate names that same byte in the new text;
/// the text grows by the replacement and shrinks by the range.
pub proof fn patched_text_reads_back(
    request: PatchRequest,
    source: Seq<char>,
    patched: PatchedFile,
    start: usize,
    end: usize,
)
    requires
        encode_utf8(source).len() <= usize::MAX,
        patch_request_validity(request) is Ok,
        patch_result(request, source, Ok(patched)),
        locate(encode_utf8(source), request.start_line, request.start_column) == Ok::<usize, PatchError>(start),
        locate(encode_utf8(source), request.end_line, request.end_column) == Ok::<usize, PatchError>(end),
    ensures
        ({
            let new_bytes = encode_utf8(patched.contents@);
            let replacement = encode_utf8(request.replacement@);
            &&& new_bytes.len() == encode_utf8(source).len() - (end - start) + replacement.len()
            &&& new_bytes.subrange(start as int, start + replacement.len()) == replacement
            &&& locate(new_bytes, request.start_line, request.start_column) == Ok::<usize, PatchError>(start)
        }),
{
    let b = encode_utf8(source);
    let r = encode_utf8(request.replacement@);
    let n = encode_utf8(patched.contents@);
    let line = request.start_line as int;
    let column = request.start_column as int;
    lemma_lines_are_located(b, line);
    lemma_lines_are_located(b, request.end_line as int);
    let o = line_start_of(b, line);
    let e = line_end_of(b, o);
    assert(start <= end);
    assert(n == b.subrange(0, start as int) + r + b.subrange(end as int, b.len() as int));
    assert(n.subrange(start as int, start + r.len()) =~= r);
    assert(n.take(start as int) =~= b.take(start as int));
    assert(forall|k: int| 0 <= k < start ==> n[k] == b[k]);
    assert(start == o + column - 1);
    // The line still starts where it did.
    assert(n.take(o) =~= b.take(o));
    assert(starts_line(n, line, o));
    if line > 1 {
        lemma_newline_count_monotone(n, o, n.len() as int);
        lemma_take_full(n);
    }
    assert(has_line(n, line));
    lemma_lines_are_located(n, line);
    lemma_starts_line_unique(n, line, o, line_start_of(n, line));
    // The line still reaches the start of the range.
    let e2 = line_end_of(n, o);
    if e2 < start {
        assert(n[e2] == b[e2]);
    }
    // The start of the range is still a character boundary.
    valid_utf8_split(b, start as int);
    valid_utf8_split(b, end as int);
    lemma_boundary_at_join(b.subrange(0, start as int), r + b.subrange(end as int, b.len() as int));
    assert(b.subrange(0, start as int) + (r + b.subrange(end as int, b.len() as int)) =~= n);
}

/// Patching back restores the text: after a patch of the range
/// `start..end`, a second patch of the same file whose coordinates name the
/// replacement's bytes in the new text, and whose replacement is the text
/// the range held, succeeds and gives back the original text, for every
/// original text that passes the syntax check (every text of a file of no
/// supported language, and every text that tree-sitter parses).
pub proof fn patching_back_restores(
    first: PatchRequest,
    source: Seq<char>,
    patched: PatchedFile,
    start: usize,
    end: usize,
    second: PatchRequest,
    back_end: usize,
    res: Result<PatchedFile, PatchError>,
)
    requires
        patch_result(first, source, Ok(patched)),
        locate(encode_utf8(source), first.start_line, first.start_column) == Ok::<usize, PatchError>(start),
        locate(encode_utf8(source), first.end_line, first.end_column) == Ok::<usize, PatchError>(end),
        second.file_path == first.file_path,
        locate(encode_utf8(patched.contents@), second.start_line, second.start_column) == Ok::<
            usize,
            PatchError,
        >(start),
        locate(encode_utf8(patched.contents@), second.end_line, second.end_column) == Ok::<
            usize,
            PatchError,
        >(back_end),
        back_end == start + encode_utf8(first.replacement@).len(),
        encode_utf8(second.replacement@) == encode_utf8(source).subrange(start as int, end as int),
        syntax_validity(first.file_path@, encode_utf8(source)) is Ok,
        patch_result(second, patched.contents@, res),
    ensures
        res matches Ok(restored) && restored.contents@ == source
            && restored.response.bytes_written == encode_utf8(source).len(),
{
    let b = encode_utf8(source);
    let r = encode_utf8(first.replacement@);
    let n = encode_utf8(patched.contents@);
    assert(start <= end);
    assert(n == b.subrange(0, start as int) + r + b.subrange(end as int, b.len() as int));
    let u = n.subrange(0, start as int) + b.subrange(start as int, end as int) + n.subrange(
        back_end as int,
        n.len() as int,
    );
    assert(n.subrange(0, start as int) =~= b.subrange(0, start as int));
    assert(n.subrange(back_end as int, n.len() as int) =~= b.subrange(end as int, b.len() as int));
    assert(u =~= b);
    if let Ok(restored) = res {
        lemma_encode_utf8_injective(restored.contents@, source);
    }
}

/// The syntax flag of a patch depends only on the new contents: for a file
/// of no supported language there is none, and otherwise it is whether the
/// root of tree-sitter's tree of the new contents holds no error, whatever
/// the text before the patch was.
pub proof fn patch_flag_reads_only_new_contents(
    request: PatchRequest,
    source: Seq<char>,
    patched: PatchedFile,
)
    requires
        patch_result(request, source, Ok(patched)),
    ensures
        patched.response.syntax_valid == match extension_language(path_extension(request.file_path@)) {
            None => None,
            Some(language) => Some(
                !ts_has_error(language, encode_utf8(patched.contents@), Seq::<u32>::empty()),
            ),
        },
{
}

/// Two patches of the same file that give the same new contents report the
/// same syntax flag, whatever texts they were applied to.
pub proof fn patches_with_equal_results_agree_on_syntax(
    first: PatchRequest,
    first_source: Seq<char>,
    first_patched: PatchedFile,
    second: PatchRequest,
    second_source: Seq<char>,
    second_patched: PatchedFile,
)
    requires
        first.file_path == second.file_path,
        patch_result(first, first_source, Ok(first_patched)),
        patch_result(second, second_source, Ok(second_patched)),
        first_patched.contents@ == second_patched.contents@,
    ensures
        first_patched.response.syntax_valid == second_patched.response.syntax_valid,
{
    patch_flag_reads_only_new_contents(first, first_source, first_patched);
    patch_flag_reads_only_new_contents(second, second_source, second_patched);
}

/// Applies `request` to `source`, the contents of the file it names: the
/// new contents, and the report on them, whose syntax flag is whether the
/// root of tree-sitter's tree of the new contents holds no error.
pub fn apply_patch(request: &PatchRequest, source: &str) -> (res: Result<PatchedFile, PatchError>)
    ensures
        patch_request_validity(*request) matches Err(e) ==> res == Err::<PatchedFile, PatchError>(e),
        patch_request_validity(*request) is Ok ==> patch_result(*request, source@, res),
{
    match validate_request(request) {
        Ok(()) => {},
        Err(error) => return Err(error),
    }
    let start = match byte_offset(source, request.start_line, request.start_column) {
        Ok(offset) => offset,
        Err(error) => return Err(error),
    };
    let end = match byte_offset(source, request.end_line, request.end_column) {
        Ok(offset) => offset,
        Err(error) => return Err(error),
    };
    if end < start {
        return Err(PatchError::ReversedRange);
    }
    let replacement = request.replacement.as_str();
    let updated = splice_str(source, start, end, replacement);
    let syntax_valid = match syntax_valid_for_path(request.file_path.as_str(), updated.as_str()) {
        Ok(valid) => valid,
        Err(error) => return Err(PatchError::Probe(error)),
    };
    let bytes_written = updated.as_str().as_bytes().len();
    let file = request.file_path.clone();
    Ok(
        PatchedFile {
            response: PatchResponse { file, bytes_written, syntax_valid },
            contents: updated,
        },
    )
}

} // verus!
