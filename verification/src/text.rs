//! UTF-8 byte lengths and line splitting over character sequences.
//!
//! Ranges are half-open spans of byte offsets into the UTF-8 encoding of the
//! annotated text, so the rendering specifications need the encoded byte
//! length of characters and of character sequences, and a model of splitting
//! a text into lines on `'\n'` terminators.

use vstd::prelude::*;

use vstd::utf8::char_is_scalar;
use vstd::utf8::encode_scalar;
use vstd::utf8::encode_utf8;

verus! {

/// The UTF-8 encoded byte length of one character.
pub open spec fn char_bytes(c: char) -> int {
    encode_scalar(c as u32).len() as int
}

/// The UTF-8 encoded byte length of a character sequence.
pub open spec fn bytes_len(s: Seq<char>) -> int {
    encode_utf8(s).len() as int
}

/// Every character encodes to between one and four bytes.
pub proof fn lemma_char_bytes_bounds(c: char)
    ensures
        1 <= char_bytes(c) <= 4,
{
    char_is_scalar(c);
}

/// Byte length distributes over concatenation.
pub proof fn lemma_bytes_len_concat(a: Seq<char>, b: Seq<char>)
    ensures
        bytes_len(a + b) == bytes_len(a) + bytes_len(b),
    decreases a.len(),
{
    if a.len() == 0 {
        assert(a + b =~= b);
    } else {
        assert((a + b).drop_first() =~= a.drop_first() + b);
        lemma_bytes_len_concat(a.drop_first(), b);
    }
}

/// The byte length of a one-character sequence is that character's width.
pub proof fn lemma_bytes_len_single(c: char)
    ensures
        bytes_len(seq![c]) == char_bytes(c),
{
    assert(seq![c].drop_first() =~= Seq::<char>::empty());
    assert(encode_utf8(Seq::<char>::empty()) =~= Seq::<u8>::empty());
    assert(encode_utf8(seq![c]) =~= encode_scalar(c as u32) + encode_utf8(seq![c].drop_first()));
    assert(encode_utf8(seq![c]) =~= encode_scalar(c as u32));
}

/// Extending a prefix by one character adds that character's byte width.
pub proof fn lemma_bytes_len_take_succ(s: Seq<char>, i: int)
    requires
        0 <= i < s.len(),
    ensures
        bytes_len(s.take(i + 1)) == bytes_len(s.take(i)) + char_bytes(s[i]),
{
    assert(s.take(i + 1) =~= s.take(i) + seq![s[i]]);
    lemma_bytes_len_concat(s.take(i), seq![s[i]]);
    lemma_bytes_len_single(s[i]);
}

/// A split of a sequence splits its byte length.
pub proof fn lemma_bytes_len_split(s: Seq<char>, i: int)
    requires
        0 <= i <= s.len(),
    ensures
        bytes_len(s) == bytes_len(s.take(i)) + bytes_len(s.skip(i)),
{
    assert(s =~= s.take(i) + s.skip(i));
    lemma_bytes_len_concat(s.take(i), s.skip(i));
}

/// The index of the first `'\n'` in `s`, or `s.len()` when there is none.
pub open spec fn first_newline(s: Seq<char>) -> int
    decreases s.len(),
{
    if s.len() == 0 {
        0
    } else if s[0] == '\n' {
        0
    } else {
        1 + first_newline(s.drop_first())
    }
}

/// `first_newline` is in bounds, points at a `'\n'` unless there is none,
/// and nothing before it is a `'\n'`.
pub proof fn lemma_first_newline(s: Seq<char>)
    ensures
        0 <= first_newline(s) <= s.len(),
        first_newline(s) < s.len() ==> s[first_newline(s)] == '\n',
        forall|k: int| 0 <= k < first_newline(s) ==> s[k] != '\n',
    decreases s.len(),
{
    if s.len() == 0 || s[0] == '\n' {
    } else {
        lemma_first_newline(s.drop_first());
        assert forall|k: int| 0 <= k < first_newline(s) implies s[k] != '\n' by {
            if k > 0 {
                assert(s.drop_first()[k - 1] == s[k]);
            }
        }
    }
}

/// Any position with no `'\n'` before it that is the text's end or holds a
/// `'\n'` is `first_newline`.
pub proof fn lemma_first_newline_unique(s: Seq<char>, j: int)
    requires
        0 <= j <= s.len(),
        forall|k: int| 0 <= k < j ==> s[k] != '\n',
        j < s.len() ==> s[j] == '\n',
    ensures
        j == first_newline(s),
{
    lemma_first_newline(s);
}

/// The lines of `s`, split on `'\n'` terminators: terminators are not part
/// of any line, a final line without a terminator is included, and a text
/// that ends exactly at a terminator produces no extra empty trailing line.
pub open spec fn split_lines(s: Seq<char>) -> Seq<Seq<char>>
    decreases s.len(),
    via split_lines_decreases
{
    if s.len() == 0 {
        Seq::empty()
    } else {
        let i = first_newline(s);
        if i == s.len() {
            seq![s]
        } else {
            seq![s.take(i)] + split_lines(s.skip(i + 1))
        }
    }
}

#[via_fn]
proof fn split_lines_decreases(s: Seq<char>) {
    lemma_first_newline(s);
}

/// The absolute byte offset at which line `k` starts: every preceding line
/// contributes its byte length plus one for the consumed terminator.
pub open spec fn line_start_off(lines: Seq<Seq<char>>, k: int) -> int
    decreases k,
{
    if k <= 0 {
        0
    } else {
        line_start_off(lines, k - 1) + bytes_len(lines[k - 1]) + 1
    }
}

/// Relies on `str::len`: it returns the length in bytes of the string's
/// UTF-8 encoding, which is held in memory and so fits in `usize`.
#[verifier::external_body]
pub(crate) fn byte_len(s: &str) -> (n: usize)
    ensures
        n == bytes_len(s@),
{
    s.len()
}

/// Relies on `String::push`: it appends the given character at the end.
#[verifier::external_body]
pub(crate) fn push_char(s: &mut String, c: char)
    ensures
        final(s)@ == old(s)@.push(c),
{
    s.push(c)
}

/// The UTF-8 encoded byte width of one character.
pub fn char_width(c: char) -> (n: usize)
    ensures
        n == char_bytes(c),
{
    proof {
        char_is_scalar(c);
    }
    let u = c as u32;
    if u <= 0x7F {
        1
    } else if u <= 0x7FF {
        2
    } else if u <= 0xFFFF {
        3
    } else {
        4
    }
}

} // verus!
