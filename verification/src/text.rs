//! Byte-level facts about UTF-8 text: newline counting, character
//! boundaries around ASCII bytes, and splicing a replacement into a string.
use vstd::prelude::*;
use vstd::string::*;
use vstd::utf8::*;

verus! {

broadcast use vstd::utf8::group_utf8_lib;

/// The newline byte `\n`.
pub const NEWLINE: u8 = 10u8;

/// The carriage-return byte `\r`.
pub const CARRIAGE_RETURN: u8 = 13u8;

/// The views of a list of strings.
pub open spec fn string_views(strings: Seq<String>) -> Seq<Seq<char>> {
    strings.map_values(|s: String| s@)
}

/// Number of newline bytes in `bytes`.
pub open spec fn newline_count(bytes: Seq<u8>) -> nat
    decreases bytes.len(),
{
    if bytes.len() == 0 {
        0
    } else {
        newline_count(bytes.drop_last()) + if bytes.last() == NEWLINE {
            1nat
        } else {
            0nat
        }
    }
}

/// Counting the newlines of a prefix one byte longer adds that byte's contribution.
pub proof fn lemma_newline_count_step(bytes: Seq<u8>, i: int)
    requires
        0 <= i < bytes.len(),
    ensures
        newline_count(bytes.take(i + 1)) == newline_count(bytes.take(i)) + if bytes[i] == NEWLINE {
            1nat
        } else {
            0nat
        },
{
    assert(bytes.take(i + 1).drop_last() =~= bytes.take(i));
}

/// Newline counts of prefixes never decrease.
pub proof fn lemma_newline_count_monotone(bytes: Seq<u8>, i: int, j: int)
    requires
        0 <= i <= j <= bytes.len(),
    ensures
        newline_count(bytes.take(i)) <= newline_count(bytes.take(j)),
    decreases j - i,
{
    if i < j {
        lemma_newline_count_step(bytes, j - 1);
        lemma_newline_count_monotone(bytes, i, j - 1);
    }
}

/// The whole sequence is its own longest prefix.
pub proof fn lemma_take_full(bytes: Seq<u8>)
    ensures
        bytes.take(bytes.len() as int) == bytes,
{
    assert(bytes.take(bytes.len() as int) =~= bytes);
}

/// Counts the newline bytes of `source`.
pub fn count_newlines(source: &str) -> (count: usize)
    ensures
        count == newline_count(source.spec_bytes()),
{
    let bytes = source.as_bytes();
    let mut count: usize = 0;
    let mut i: usize = 0;
    while i < bytes.len()
        invariant
            bytes@ == source.spec_bytes(),
            i <= bytes@.len(),
            count <= i,
            count == newline_count(bytes@.take(i as int)),
        decreases bytes@.len() - i,
    {
        proof {
            lemma_newline_count_step(bytes@, i as int);
        }
        if bytes[i] == NEWLINE {
            count = count + 1;
        }
        i = i + 1;
    }
    proof {
        lemma_take_full(bytes@);
    }
    count
}

/// Encoding a concatenation is concatenating the encodings.
pub proof fn lemma_encode_utf8_concat(a: Seq<char>, b: Seq<char>)
    ensures
        encode_utf8(a + b) == encode_utf8(a) + encode_utf8(b),
    decreases a.len(),
{
    if a.len() == 0 {
        assert(a + b =~= b);
        assert(encode_utf8(a) + encode_utf8(b) =~= encode_utf8(b));
    } else {
        assert((a + b).drop_first() =~= a.drop_first() + b);
        lemma_encode_utf8_concat(a.drop_first(), b);
        assert(encode_utf8(a + b) =~= encode_scalar(a[0] as u32) + encode_utf8(a.drop_first() + b));
        assert(encode_utf8(a + b) =~= encode_utf8(a) + encode_utf8(b));
    }
}

/// In valid UTF-8, the position right after an ASCII byte that starts a
/// character is again a character boundary.
pub proof fn lemma_boundary_after_ascii(bytes: Seq<u8>, i: int)
    requires
        valid_utf8(bytes),
        0 <= i < bytes.len(),
        bytes[i] < 0x80,
        is_char_boundary(bytes, i),
    ensures
        is_char_boundary(bytes, i + 1),
    decreases bytes.len(),
{
    let n = length_of_first_scalar(bytes);
    let rest = pop_first_scalar(bytes);
    if i == 0 {
        assert(n == 1);
        assert(is_char_boundary(rest, 0));
    } else {
        assert(is_char_boundary(rest, i - n));
        assert(rest.len() == bytes.len() - n);
        assert(rest[i - n] == bytes[i]);
        lemma_boundary_after_ascii(rest, i - n);
    }
}

/// In valid UTF-8 text, every position holding an ASCII byte, and every
/// position right after one, is a character boundary.
pub proof fn lemma_ascii_byte_boundaries(bytes: Seq<u8>, i: int)
    requires
        valid_utf8(bytes),
        0 <= i < bytes.len(),
        bytes[i] < 0x80,
    ensures
        is_char_boundary(bytes, i),
        is_char_boundary(bytes, i + 1),
{
    is_char_boundary_iff_not_is_continuation_byte(bytes, i);
    lemma_boundary_after_ascii(bytes, i);
}

/// The characters of a UTF-8 encoded string are recovered from its bytes.
pub proof fn lemma_decode_spec_bytes(s: Seq<char>)
    ensures
        decode_utf8(encode_utf8(s)) == s,
        valid_utf8(encode_utf8(s)),
{
}

/// Two strings are equal exactly when their UTF-8 encodings are.
pub proof fn lemma_encode_utf8_injective(a: Seq<char>, b: Seq<char>)
    ensures
        (encode_utf8(a) == encode_utf8(b)) <==> (a == b),
{
    if encode_utf8(a) == encode_utf8(b) {
        lemma_decode_spec_bytes(a);
        lemma_decode_spec_bytes(b);
    }
}

/// Compares two strings for equality, byte by byte.
pub fn str_equal(a: &str, b: &str) -> (res: bool)
    ensures
        res == (a@ == b@),
{
    let x = a.as_bytes();
    let y = b.as_bytes();
    proof {
        lemma_encode_utf8_injective(a@, b@);
    }
    if x.len() != y.len() {
        return false;
    }
    let mut i: usize = 0;
    while i < x.len()
        invariant
            x@.len() == y@.len(),
            (x@ == y@) <==> (a@ == b@),
            0 <= i <= x@.len(),
            forall|k: int| 0 <= k < i ==> x@[k] == y@[k],
        decreases x@.len() - i,
    {
        if x[i] != y[i] {
            assert(x@[i as int] != y@[i as int]);
            return false;
        }
        i = i + 1;
    }
    assert(x@ =~= y@);
    true
}

/// Replaces the bytes `start..end` of `source` by `replacement`.
pub fn splice_str(source: &str, start: usize, end: usize, replacement: &str) -> (res: String)
    requires
        start <= end <= source.spec_bytes().len(),
        is_char_boundary(source.spec_bytes(), start as int),
        is_char_boundary(source.spec_bytes(), end as int),
    ensures
        res@ == decode_utf8(source.spec_bytes().subrange(0, start as int)) + replacement@
            + decode_utf8(source.spec_bytes().subrange(end as int, source.spec_bytes().len() as int)),
        encode_utf8(res@) == source.spec_bytes().subrange(0, start as int)
            + replacement.spec_bytes() + source.spec_bytes().subrange(
            end as int,
            source.spec_bytes().len() as int,
        ),
{
    let (head, _) = source.split_at(start);
    let (_, tail) = source.split_at(end);
    let mut res = head.to_owned();
    res.append(replacement);
    res.append(tail);
    proof {
        lemma_decode_spec_bytes(head@);
        lemma_decode_spec_bytes(tail@);
        lemma_encode_utf8_concat(head@, replacement@);
        lemma_encode_utf8_concat(head@ + replacement@, tail@);
    }
    res
}

/// Where two valid UTF-8 texts are joined there is a character boundary.
pub proof fn lemma_boundary_at_join(a: Seq<u8>, c: Seq<u8>)
    requires
        valid_utf8(a),
        valid_utf8(c),
    ensures
        valid_utf8(a + c),
        is_char_boundary(a + c, a.len() as int),
    decreases a.len(),
{
    valid_utf8_concat(a, c);
    if a.len() > 0 {
        let n = length_of_first_scalar(a);
        let rest = pop_first_scalar(a);
        assert(forall|k: int| 0 <= k < a.len() ==> (a + c)[k] == a[k]);
        assert(length_of_first_scalar(a + c) == n);
        assert(pop_first_scalar(a + c) =~= rest + c);
        lemma_boundary_at_join(rest, c);
    }
}

/// A character boundary of a text stays one in any prefix that ends at a
/// character boundary at or after it.
pub proof fn lemma_boundary_in_prefix(bytes: Seq<u8>, i: int, end: int)
    requires
        valid_utf8(bytes),
        0 <= i <= end <= bytes.len(),
        is_char_boundary(bytes, i),
        is_char_boundary(bytes, end),
    ensures
        valid_utf8(bytes.subrange(0, end)),
        is_char_boundary(bytes.subrange(0, end), i),
{
    let head = bytes.subrange(0, end);
    valid_utf8_split(bytes, end);
    if i == end {
        is_char_boundary_start_end_of_seq(head);
    } else {
        is_char_boundary_iff_not_is_continuation_byte(bytes, i);
        is_char_boundary_iff_not_is_continuation_byte(head, i);
    }
}

/// The bytes `start..end` of `source`, as a string.
pub fn substring(source: &str, start: usize, end: usize) -> (res: String)
    requires
        start <= end <= source.spec_bytes().len(),
        is_char_boundary(source.spec_bytes(), start as int),
        is_char_boundary(source.spec_bytes(), end as int),
    ensures
        encode_utf8(res@) == source.spec_bytes().subrange(start as int, end as int),
        res@ == decode_utf8(source.spec_bytes().subrange(start as int, end as int)),
{
    let ghost b = source.spec_bytes();
    proof {
        lemma_boundary_in_prefix(b, start as int, end as int);
    }
    let (head, _) = source.split_at(end);
    let (_, middle) = head.split_at(start);
    assert(middle.spec_bytes() =~= b.subrange(start as int, end as int));
    proof {
        lemma_decode_spec_bytes(middle@);
    }
    middle.to_owned()
}

} // verus!
