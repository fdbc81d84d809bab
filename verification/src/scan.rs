//! Multi-keyword scanning of file contents, line by line, with an
//! Aho-Corasick automaton.
//!
//! Lines are those of `str::lines`: the text is cut at each newline, a
//! carriage return right before a newline is dropped with it, and a final
//! newline does not start another line. Lines are numbered from 1.
use vstd::prelude::*;
use vstd::string::*;
use vstd::utf8::*;

use aho_corasick::{AhoCorasick, BuildError};

use crate::patch::{
    ends_line, has_line, lemma_ends_line_unique, lemma_lines_are_located, lemma_starts_line_unique,
    line_end_of, line_start_of, starts_line,
};
use crate::text::{
    lemma_ascii_byte_boundaries, lemma_newline_count_monotone, lemma_newline_count_step,
    lemma_take_full, newline_count, lemma_decode_spec_bytes, string_views, substring,
    CARRIAGE_RETURN, NEWLINE,
};

verus! {

broadcast use vstd::utf8::group_utf8_lib;

/// Keywords to look for, and the directories whose files are searched.
#[derive(Debug, Clone, PartialEq, Eq)]
pub struct ScanRequest {
    pub target_dirs: Vec<String>,
    pub keywords: Vec<String>,
}

/// One occurrence of a keyword: the file, the 1-based line, the keyword, and
/// the whole text of the line.
#[derive(Debug, Clone, PartialEq, Eq)]
pub struct ScanMatch {
    pub file: String,
    pub line: usize,
    pub keyword: String,
    pub match_str: String,
}

/// A file found under the target directories, with its text.
#[derive(Debug, Clone, PartialEq, Eq)]
pub struct SourceFile {
    pub path: String,
    pub contents: String,
}

/// Why a scan was refused.
#[derive(Debug)]
pub enum ScanError {
    MissingTargetDirs,
    MissingKeywords,
    Matcher(BuildError),
}

/// An Aho-Corasick automaton.
#[verifier::external_type_specification]
#[verifier::external_body]
pub struct AutomatonType(aho_corasick::AhoCorasick);

/// Why aho-corasick could not build an automaton.
#[verifier::external_type_specification]
#[verifier::external_body]
pub struct BuildErrorType(aho_corasick::BuildError);

/// The patterns an automaton searches for, in the order they were given:
/// the pattern with identifier `i` is the `i`-th.
pub uninterp spec fn automaton_patterns(automaton: AhoCorasick) -> Seq<Seq<u8>>;

/// What `AhoCorasick::find_iter` reports, as (pattern, start, end) triples,
/// for an automaton built with the default configuration from `patterns`,
/// searching `haystack`.
pub uninterp spec fn keyword_spans(patterns: Seq<Seq<u8>>, haystack: Seq<u8>) -> Seq<(usize, usize, usize)>;

/// The UTF-8 bytes of each keyword.
pub open spec fn keyword_bytes(keywords: Seq<String>) -> Seq<Seq<u8>> {
    keywords.map_values(|k: String| encode_utf8(k@))
}

/// The automaton was built with the default configuration: standard match
/// semantics, unanchored searches, matching bytes exactly.
pub uninterp spec fn automaton_is_default(automaton: AhoCorasick) -> bool;

/// Whether `AhoCorasick::new` builds an automaton, with the default
/// configuration, for `patterns`.
pub uninterp spec fn default_automaton_builds(patterns: Seq<Seq<u8>>) -> bool;

/// `AhoCorasick::new` over the UTF-8 bytes of `keywords`, with the default
/// configuration (standard match semantics, unanchored, exact bytes).
/// Whether it succeeds is named as a function of those bytes (it fails when
/// the automaton would exceed its size limits); when it does, the automaton
/// searches for exactly those patterns, in that order.
#[verifier::external_body]
fn build_automaton(keywords: &Vec<String>) -> (res: Result<AhoCorasick, BuildError>)
    ensures
        res is Ok <==> default_automaton_builds(keyword_bytes(keywords@)),
        res matches Ok(automaton) ==> automaton_patterns(automaton) == keyword_bytes(keywords@),
        res matches Ok(automaton) ==> automaton_is_default(automaton),
{
    AhoCorasick::new(keywords)
}

/// `AhoCorasick::find_iter` over `haystack`, each match given as (pattern
/// identifier, start, end). The result is named; of each match, the pattern
/// identifier is one of the automaton's and the matched bytes are that
/// pattern.
#[verifier::external_body]
fn find_keywords(automaton: &AhoCorasick, haystack: &str) -> (spans: Vec<(usize, usize, usize)>)
    requires
        automaton_is_default(*automaton),
    ensures
        spans@ == keyword_spans(automaton_patterns(*automaton), haystack.spec_bytes()),
        forall|k: int|
            0 <= k < spans@.len() ==> {
                let (p, s, e) = #[trigger] spans@[k];
                &&& p < automaton_patterns(*automaton).len()
                &&& s <= e <= haystack.spec_bytes().len()
                &&& haystack.spec_bytes().subrange(s as int, e as int) == automaton_patterns(
                    *automaton,
                )[p as int]
            },
{
    automaton.find_iter(haystack).map(|m| (m.pattern().as_usize(), m.start(), m.end())).collect()
}

/// The position of the first newline at or after byte `i`, or the end.
pub open spec fn line_break(bytes: Seq<u8>, i: int) -> int
    decreases bytes.len() - i,
{
    if i < 0 || i >= bytes.len() {
        bytes.len() as int
    } else if bytes[i] == NEWLINE {
        i
    } else {
        line_break(bytes, i + 1)
    }
}

/// A line break lies at or after where it is looked for.
pub proof fn lemma_line_break_bounds(bytes: Seq<u8>, i: int)
    requires
        0 <= i <= bytes.len(),
    ensures
        i <= line_break(bytes, i) <= bytes.len(),
        line_break(bytes, i) < bytes.len() ==> bytes[line_break(bytes, i)] == NEWLINE,
        forall|m: int| i <= m < line_break(bytes, i) ==> bytes[m] != NEWLINE,
    decreases bytes.len() - i,
{
    if i < bytes.len() && bytes[i] != NEWLINE {
        lemma_line_break_bounds(bytes, i + 1);
    }
}

/// Where the text of the line from `start` to the break `brk` ends: a
/// carriage return right before the newline is not part of it.
pub open spec fn line_text_end(bytes: Seq<u8>, start: int, brk: int) -> int {
    if brk < bytes.len() && brk > start && bytes[brk - 1] == CARRIAGE_RETURN {
        brk - 1
    } else {
        brk
    }
}

/// A scan match as plain values: file, line number, keyword and line text.
pub open spec fn match_view(m: ScanMatch) -> (Seq<char>, int, Seq<char>, Seq<char>) {
    (m.file@, m.line as int, m.keyword@, m.match_str@)
}

/// The plain values of a list of matches.
pub open spec fn match_views(ms: Seq<ScanMatch>) -> Seq<(Seq<char>, int, Seq<char>, Seq<char>)> {
    ms.map_values(|m: ScanMatch| match_view(m))
}

/// The matches that the spans of keywords found in the line `line`,
/// numbered `number`, of the file `file` stand for.
pub open spec fn span_matches(
    file: Seq<char>,
    keywords: Seq<Seq<char>>,
    spans: Seq<(usize, usize, usize)>,
    line: Seq<char>,
    number: int,
) -> Seq<(Seq<char>, int, Seq<char>, Seq<char>)> {
    spans.map_values(|m: (usize, usize, usize)| (file, number, keywords[m.0 as int], line))
}

/// The matches in one line, numbered `number`, of the file `file`.
pub open spec fn line_matches(
    file: Seq<char>,
    keywords: Seq<Seq<char>>,
    patterns: Seq<Seq<u8>>,
    line: Seq<u8>,
    number: int,
) -> Seq<(Seq<char>, int, Seq<char>, Seq<char>)> {
    span_matches(file, keywords, keyword_spans(patterns, line), decode_utf8(line), number)
}

/// The matches in the lines of `bytes` from the line starting at byte `i`,
/// which is numbered `number`.
pub open spec fn matches_from(
    file: Seq<char>,
    keywords: Seq<Seq<char>>,
    patterns: Seq<Seq<u8>>,
    bytes: Seq<u8>,
    i: int,
    number: int,
) -> Seq<(Seq<char>, int, Seq<char>, Seq<char>)>
    decreases bytes.len() - i,
{
    if i < 0 || i >= bytes.len() {
        seq![]
    } else {
        let brk = line_break(bytes, i);
        let rest = if i <= brk < bytes.len() {
            matches_from(file, keywords, patterns, bytes, brk + 1, number + 1)
        } else {
            seq![]
        };
        line_matches(file, keywords, patterns, bytes.subrange(i, line_text_end(bytes, i, brk)), number)
            + rest
    }
}

/// The matches in one file.
pub open spec fn file_matches(
    file: SourceFile,
    keywords: Seq<String>,
) -> Seq<(Seq<char>, int, Seq<char>, Seq<char>)> {
    matches_from(file.path@, string_views(keywords), keyword_bytes(keywords), encode_utf8(file.contents@), 0, 1)
}

/// The matches in a list of files, file by file.
pub open spec fn all_matches(
    files: Seq<SourceFile>,
    keywords: Seq<String>,
) -> Seq<(Seq<char>, int, Seq<char>, Seq<char>)>
    decreases files.len(),
{
    if files.len() == 0 {
        seq![]
    } else {
        file_matches(files[0], keywords) + all_matches(files.drop_first(), keywords)
    }
}

/// Scanning is per file and additive: the matches of two lists of files,
/// one after the other, are the matches of the first list followed by those
/// of the second; what one file gives does not depend on the files around it.
pub proof fn scan_is_additive(a: Seq<SourceFile>, b: Seq<SourceFile>, keywords: Seq<String>)
    ensures
        all_matches(a + b, keywords) == all_matches(a, keywords) + all_matches(b, keywords),
    decreases a.len(),
{
    if a.len() == 0 {
        assert(a + b =~= b);
        assert(Seq::<(Seq<char>, int, Seq<char>, Seq<char>)>::empty() + all_matches(b, keywords)
            =~= all_matches(b, keywords));
    } else {
        scan_is_additive(a.drop_first(), b, keywords);
        assert((a + b).drop_first() =~= a.drop_first() + b);
        assert((a + b)[0] == a[0]);
        assert(file_matches(a[0], keywords) + (all_matches(a.drop_first(), keywords) + all_matches(
            b,
            keywords,
        )) =~= file_matches(a[0], keywords) + all_matches(a.drop_first(), keywords) + all_matches(
            b,
            keywords,
        ));
    }
}

/// The matches of a single file are that file's matches; with
/// [`scan_is_additive`], every file of a list contributes all of its
/// matches, whatever the files before it gave.
pub proof fn scan_of_one_file(file: SourceFile, keywords: Seq<String>)
    ensures
        all_matches(seq![file], keywords) == file_matches(file, keywords),
{
    assert(seq![file].drop_first() =~= Seq::<SourceFile>::empty());
    assert(seq![file][0] == file);
    assert(all_matches(Seq::<SourceFile>::empty(), keywords) == Seq::<
        (Seq<char>, int, Seq<char>, Seq<char>),
    >::empty());
    assert(file_matches(file, keywords) + Seq::<(Seq<char>, int, Seq<char>, Seq<char>)>::empty()
        =~= file_matches(file, keywords));
}

/// A reported match names one of the keywords, on a line numbered from 1,
/// and its line text holds that keyword.
pub open spec fn match_holds_keyword(m: ScanMatch, keywords: Seq<String>) -> bool {
    &&& m.line >= 1
    &&& exists|p: int| 0 <= p < keywords.len() && m.keyword == #[trigger] keywords[p]
    &&& exists|j: int|
        #![trigger encode_utf8(m.match_str@).subrange(j, j + encode_utf8(m.keyword@).len())]
        0 <= j && j + encode_utf8(m.keyword@).len() <= encode_utf8(m.match_str@).len() && encode_utf8(
            m.match_str@,
        ).subrange(j, j + encode_utf8(m.keyword@).len()) == encode_utf8(m.keyword@)
}

/// Every match of a list holds its keyword.
pub open spec fn all_hold_keywords(ms: Seq<ScanMatch>, keywords: Seq<String>) -> bool {
    forall|k: int| 0 <= k < ms.len() ==> match_holds_keyword(#[trigger] ms[k], keywords)
}

/// The text of line `line` of `bytes`, the same line that patch coordinates
/// with that line number address, without its line break.
pub open spec fn line_text(bytes: Seq<u8>, line: int) -> Seq<u8> {
    let start = line_start_of(bytes, line);
    bytes.subrange(start, line_text_end(bytes, start, line_end_of(bytes, start)))
}

/// Between two positions with no newline between them the newline count of
/// the prefixes does not change.
proof fn lemma_no_newline_between(bytes: Seq<u8>, i: int, j: int)
    requires
        0 <= i <= j <= bytes.len(),
        forall|m: int| i <= m < j ==> bytes[m] != NEWLINE,
    ensures
        newline_count(bytes.take(j)) == newline_count(bytes.take(i)),
    decreases j - i,
{
    if i < j {
        lemma_newline_count_step(bytes, j - 1);
        lemma_no_newline_between(bytes, i, j - 1);
    }
}

/// Each match found from the line that starts at byte `i`, numbered
/// `number`, lies on an existing line and carries that line's text.
proof fn lemma_matches_name_their_lines(
    file: Seq<char>,
    keywords: Seq<Seq<char>>,
    patterns: Seq<Seq<u8>>,
    bytes: Seq<u8>,
    i: int,
    number: int,
)
    requires
        0 <= i <= bytes.len(),
        starts_line(bytes, number, i),
    ensures
        forall|k: int|
            0 <= k < matches_from(file, keywords, patterns, bytes, i, number).len() ==> {
                let m = #[trigger] matches_from(file, keywords, patterns, bytes, i, number)[k];
                &&& has_line(bytes, m.1)
                &&& m.1 >= number
                &&& m.3 == decode_utf8(line_text(bytes, m.1))
            },
    decreases bytes.len() - i,
{
    if i < bytes.len() {
        lemma_line_break_bounds(bytes, i);
        let brk = line_break(bytes, i);
        let this_line = line_matches(
            file,
            keywords,
            patterns,
            bytes.subrange(i, line_text_end(bytes, i, brk)),
            number,
        );
        // Line `number` starts at `i` and ends at `brk`.
        if number > 1 {
            lemma_newline_count_monotone(bytes, i, bytes.len() as int);
            lemma_take_full(bytes);
        }
        assert(has_line(bytes, number));
        lemma_lines_are_located(bytes, number);
        lemma_starts_line_unique(bytes, number, i, line_start_of(bytes, number));
        assert(ends_line(bytes, i, brk));
        lemma_ends_line_unique(bytes, i, brk, line_end_of(bytes, i));
        let rest = if brk < bytes.len() {
            matches_from(file, keywords, patterns, bytes, brk + 1, number + 1)
        } else {
            seq![]
        };
        if brk < bytes.len() {
            lemma_no_newline_between(bytes, i, brk);
            lemma_newline_count_step(bytes, brk);
            if number == 1 {
                assert(bytes.take(0) =~= Seq::<u8>::empty());
            }
            assert(starts_line(bytes, number + 1, brk + 1));
            lemma_matches_name_their_lines(file, keywords, patterns, bytes, brk + 1, number + 1);
        }
        assert(matches_from(file, keywords, patterns, bytes, i, number) == this_line + rest);
        assert forall|k: int|
            0 <= k < matches_from(file, keywords, patterns, bytes, i, number).len() implies {
                let m = #[trigger] matches_from(file, keywords, patterns, bytes, i, number)[k];
                &&& has_line(bytes, m.1)
                &&& m.1 >= number
                &&& m.3 == decode_utf8(line_text(bytes, m.1))
            } by {
            if k < this_line.len() {
                assert(matches_from(file, keywords, patterns, bytes, i, number)[k] == this_line[k]);
            } else {
                assert(matches_from(file, keywords, patterns, bytes, i, number)[k] == rest[k
                    - this_line.len()]);
            }
        }
    }
}

/// Scanning numbers lines as patching does: every match of a file lies on
/// an existing line of it, and its text is the text of the line that patch
/// coordinates with the match's line number address.
pub proof fn scan_lines_are_patch_lines(file: SourceFile, keywords: Seq<String>)
    ensures
        forall|k: int|
            0 <= k < file_matches(file, keywords).len() ==> {
                let m = #[trigger] file_matches(file, keywords)[k];
                &&& m.1 >= 1
                &&& has_line(encode_utf8(file.contents@), m.1)
                &&& m.3 == decode_utf8(line_text(encode_utf8(file.contents@), m.1))
            },
{
    lemma_matches_name_their_lines(
        file.path@,
        string_views(keywords),
        keyword_bytes(keywords),
        encode_utf8(file.contents@),
        0,
        1,
    );
}

/// What a scan gives before any file is looked at.
pub open spec fn scan_request_validity(request: ScanRequest) -> Result<(), ScanError> {
    if request.target_dirs@.len() == 0 {
        Err(ScanError::MissingTargetDirs)
    } else if request.keywords@.len() == 0 {
        Err(ScanError::MissingKeywords)
    } else {
        Ok(())
    }
}

/// Every span names one of the keywords, and the keyword's bytes stand in
/// the line where the span says.
pub open spec fn spans_hold_keywords(
    spans: Seq<(usize, usize, usize)>,
    line: Seq<u8>,
    keywords: Seq<String>,
) -> bool {
    forall|k: int|
        0 <= k < spans.len() ==> {
            let (p, s, e) = #[trigger] spans[k];
            &&& p < keywords.len()
            &&& s <= e <= line.len()
            &&& line.subrange(s as int, e as int) == encode_utf8(keywords[p as int]@)
        }
}

/// Appends to `out` one match per span of the line `line`, numbered
/// `number`, of the file `path`: each names the keyword of its span.
pub fn record_line_matches(
    keywords: &Vec<String>,
    path: &String,
    line: &String,
    number: usize,
    spans: &Vec<(usize, usize, usize)>,
    out: &mut Vec<ScanMatch>,
)
    requires
        forall|k: int| 0 <= k < spans@.len() ==> (#[trigger] spans@[k]).0 < keywords@.len(),
    ensures
        match_views(final(out)@) == match_views(old(out)@) + span_matches(
            path@,
            string_views(keywords@),
            spans@,
            line@,
            number as int,
        ),
        spans_hold_keywords(spans@, encode_utf8(line@), keywords@) && number >= 1
            && all_hold_keywords(old(out)@, keywords@) ==> all_hold_keywords(final(out)@, keywords@),
{
    let ghost views = string_views(keywords@);
    let ghost this_line = span_matches(path@, views, spans@, line@, number as int);
    let ghost holding = spans_hold_keywords(spans@, encode_utf8(line@), keywords@) && number >= 1
        && all_hold_keywords(old(out)@, keywords@);
    let ghost before = match_views(out@);
    let mut j: usize = 0;
    while j < spans.len()
        invariant
            forall|k: int| 0 <= k < spans@.len() ==> (#[trigger] spans@[k]).0 < keywords@.len(),
            views == string_views(keywords@),
            this_line == span_matches(path@, views, spans@, line@, number as int),
            holding == (spans_hold_keywords(spans@, encode_utf8(line@), keywords@) && number >= 1
                && all_hold_keywords(old(out)@, keywords@)),
            0 <= j <= spans@.len(),
            match_views(out@) == before + this_line.take(j as int),
            before == match_views(old(out)@),
            holding ==> all_hold_keywords(out@, keywords@),
        decreases spans@.len() - j,
    {
        let (pattern, first, last) = spans[j];
        let found = ScanMatch {
            file: path.clone(),
            line: number,
            keyword: keywords[pattern].clone(),
            match_str: line.clone(),
        };
        let ghost previous = out@;
        out.push(found);
        assert(views[pattern as int] == keywords@[pattern as int]@);
        assert(match_view(found) == this_line[j as int]);
        assert(this_line.take(j + 1) =~= this_line.take(j as int).push(this_line[j as int]));
        assert(match_views(out@) =~= match_views(previous).push(match_view(found)));
        proof {
            if holding {
                let kw = encode_utf8(found.keyword@);
                assert(spans@[j as int] == (pattern, first, last));
                assert(encode_utf8(found.match_str@).subrange(first as int, first + kw.len()) == kw);
                assert(found.keyword == keywords@[pattern as int]);
                assert(match_holds_keyword(found, keywords@));
                assert forall|k: int| 0 <= k < out@.len() implies match_holds_keyword(
                    #[trigger] out@[k],
                    keywords@,
                ) by {
                    if k < previous.len() {
                        assert(out@[k] == previous[k]);
                    }
                }
            }
        }
        j = j + 1;
    }
    assert(this_line.take(spans@.len() as int) =~= this_line);
}

/// Appends to `out` the matches of `automaton`, built from `keywords`, in
/// the line `line`, numbered `number`, of the file `path`.
fn scan_line(
    automaton: &AhoCorasick,
    keywords: &Vec<String>,
    path: &String,
    line: &String,
    number: usize,
    out: &mut Vec<ScanMatch>,
)
    requires
        automaton_patterns(*automaton) == keyword_bytes(keywords@),
        automaton_is_default(*automaton),
        number >= 1,
        all_hold_keywords(old(out)@, keywords@),
    ensures
        match_views(final(out)@) == match_views(old(out)@) + line_matches(
            path@,
            string_views(keywords@),
            keyword_bytes(keywords@),
            encode_utf8(line@),
            number as int,
        ),
        all_hold_keywords(final(out)@, keywords@),
{
    proof {
        lemma_decode_spec_bytes(line@);
    }
    let haystack = line.as_str();
    let spans = find_keywords(automaton, haystack);
    assert(haystack.spec_bytes() == encode_utf8(line@));
    assert forall|k: int| 0 <= k < spans@.len() implies (#[trigger] spans@[k]).0 < keywords@.len() by {
        assert(keyword_bytes(keywords@).len() == keywords@.len());
    }
    assert(spans_hold_keywords(spans@, encode_utf8(line@), keywords@)) by {
        assert forall|k: int| 0 <= k < spans@.len() implies {
            let (p, s, e) = #[trigger] spans@[k];
            &&& p < keywords@.len()
            &&& s <= e <= encode_utf8(line@).len()
            &&& encode_utf8(line@).subrange(s as int, e as int) == encode_utf8(keywords@[p as int]@)
        } by {
            let (p, s, e) = spans@[k];
            assert(keyword_bytes(keywords@)[p as int] == encode_utf8(keywords@[p as int]@));
        }
    }
    record_line_matches(keywords, path, line, number, &spans, out);
}

/// Appends to `out` the matches of `automaton`, built from `keywords`, in the
/// lines of the file `path` holding `contents`.
#[verifier::rlimit(80)]
pub fn scan_contents(
    automaton: &AhoCorasick,
    keywords: &Vec<String>,
    path: &String,
    contents: &str,
    out: &mut Vec<ScanMatch>,
)
    requires
        automaton_patterns(*automaton) == keyword_bytes(keywords@),
        automaton_is_default(*automaton),
        all_hold_keywords(old(out)@, keywords@),
    ensures
        all_hold_keywords(final(out)@, keywords@),
        match_views(final(out)@) == match_views(old(out)@) + matches_from(
            path@,
            string_views(keywords@),
            keyword_bytes(keywords@),
            contents.spec_bytes(),
            0,
            1,
        ),
{
    let bytes = contents.as_bytes();
    let ghost b = bytes@;
    let ghost views = string_views(keywords@);
    let ghost patterns = keyword_bytes(keywords@);
    let ghost total = match_views(old(out)@) + matches_from(path@, views, patterns, b, 0, 1);
    let mut i: usize = 0;
    let mut number: usize = 1;
    if bytes.len() == 0 {
        assert(match_views(out@) + Seq::empty() =~= match_views(out@));
        return ;
    }
    while i < bytes.len()
        invariant_except_break
            match_views(out@) + matches_from(path@, views, patterns, b, i as int, number as int) == total,
        invariant
            b == bytes@,
            b == contents.spec_bytes(),
            views == string_views(keywords@),
            patterns == keyword_bytes(keywords@),
            automaton_patterns(*automaton) == patterns,
            automaton_is_default(*automaton),
            0 <= i <= b.len(),
            1 <= number <= i + 1,
            i == 0 || b[i - 1] == NEWLINE,
            all_hold_keywords(out@, keywords@),
            total == match_views(old(out)@) + matches_from(path@, views, patterns, b, 0, 1),
        ensures
            match_views(out@) == total,
        decreases b.len() - i,
    {
        let mut brk = i;
        proof {
            lemma_line_break_bounds(b, i as int);
        }
        while brk < bytes.len() && bytes[brk] != NEWLINE
            invariant
                b == bytes@,
                i <= brk <= b.len(),
                line_break(b, i as int) == line_break(b, brk as int),
            decreases b.len() - brk,
        {
            brk = brk + 1;
        }
        let end = if brk < bytes.len() && brk > i && bytes[brk - 1] == CARRIAGE_RETURN {
            brk - 1
        } else {
            brk
        };
        proof {
            if i > 0 {
                lemma_ascii_byte_boundaries(b, i - 1);
            }
            if end < b.len() {
                lemma_ascii_byte_boundaries(b, end as int);
            }
        }
        let line = substring(contents, i, end);
        let ghost line_bytes = b.subrange(i as int, end as int);
        let ghost this_line = line_matches(path@, views, patterns, line_bytes, number as int);
        scan_line(automaton, keywords, path, &line, number, out);
        assert(matches_from(path@, views, patterns, b, i as int, number as int) == this_line
            + matches_from(path@, views, patterns, b, brk + 1, number + 1));
        if brk >= bytes.len() || brk + 1 >= bytes.len() {
            assert(matches_from(path@, views, patterns, b, brk + 1, number + 1) =~= Seq::empty());
            assert(match_views(out@) =~= total);
            break;
        }
        i = brk + 1;
        number = number + 1;
    }
}

/// Scans `files`, the files found under the request's target directories
/// with their text, for the request's keywords. Which spans aho-corasick
/// reports in a line is named, not stated, and so is whether it can build
/// its automaton for the keywords.
pub fn scan_keywords(
    request: &ScanRequest,
    files: &Vec<SourceFile>,
) -> (res: Result<Vec<ScanMatch>, ScanError>)
    ensures
        scan_request_validity(*request) matches Err(e) ==> res == Err::<Vec<ScanMatch>, ScanError>(e),
        scan_request_validity(*request) is Ok ==> match res {
            Ok(matches) => match_views(matches@) == all_matches(files@, request.keywords@)
                && all_hold_keywords(matches@, request.keywords@),
            Err(e) => e is Matcher,
        },
        scan_request_validity(*request) is Ok ==> (res is Ok <==> default_automaton_builds(
            keyword_bytes(request.keywords@),
        )),
{
    if request.target_dirs.len() == 0 {
        return Err(ScanError::MissingTargetDirs);
    }
    if request.keywords.len() == 0 {
        return Err(ScanError::MissingKeywords);
    }
    let automaton = match build_automaton(&request.keywords) {
        Ok(automaton) => automaton,
        Err(error) => return Err(ScanError::Matcher(error)),
    };
    let mut matches: Vec<ScanMatch> = Vec::new();
    let mut f: usize = 0;
    assert(files@.skip(0) =~= files@);
    assert(match_views(matches@) + all_matches(files@, request.keywords@) =~= all_matches(
        files@,
        request.keywords@,
    ));
    while f < files.len()
        invariant
            automaton_patterns(automaton) == keyword_bytes(request.keywords@),
            automaton_is_default(automaton),
            0 <= f <= files@.len(),
            all_hold_keywords(matches@, request.keywords@),
            match_views(matches@) + all_matches(files@.skip(f as int), request.keywords@) == all_matches(
                files@,
                request.keywords@,
            ),
        decreases files@.len() - f,
    {
        let file = &files[f];
        assert(files@.skip(f as int).drop_first() =~= files@.skip(f + 1));
        assert(files@.skip(f as int)[0] == files@[f as int]);
        scan_contents(&automaton, &request.keywords, &file.path, file.contents.as_str(), &mut matches);
        f = f + 1;
    }
    assert(files@.skip(f as int) =~= Seq::<SourceFile>::empty());
    assert(files@.skip(0) =~= files@);
    Ok(matches)
}

} // verus!
