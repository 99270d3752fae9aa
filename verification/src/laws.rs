//! Properties of the rendering engine that relate several operations, each
//! proved from the specifications the public contracts use.

use vstd::prelude::*;

use crate::color::escape_seq;
use crate::color::AsciiColor;
use crate::engine::render_spec;
use crate::engine::CuteView;
use crate::ranges::under_at;
use crate::ranges::ColorRange;
use crate::ranges::UnderlineRange;
use crate::render::content_chars;
use crate::render::render_text;
use crate::render::under_row;
use crate::text::bytes_len;
use crate::text::first_newline;
use crate::text::lemma_first_newline;

verus! {

/// Rendering unset text yields the empty string, whatever the default
/// color and the range collections hold.
pub proof fn lemma_render_unset(v: CuteView)
    requires
        v.text is None,
    ensures
        render_spec(v) == Seq::<char>::empty(),
{
}

/// With no color ranges, a line's characters are emitted without any color
/// transition, whatever the default color: the color state never changes.
proof fn lemma_content_chars_plain(line: Seq<char>, off: int, d: Option<AsciiColor>)
    ensures
        content_chars(line, off, d, Seq::<ColorRange>::empty(), None) == line,
    decreases line.len(),
{
    if line.len() == 0 {
        assert(content_chars(line, off, d, Seq::<ColorRange>::empty(), None) =~= line);
    } else {
        lemma_content_chars_plain(line.drop_first(), off + crate::text::char_bytes(line[0]), d);
        assert(content_chars(line, off, d, Seq::<ColorRange>::empty(), None) =~= seq![line[0]]
            + line.drop_first());
        assert(seq![line[0]] + line.drop_first() =~= line);
    }
}

/// With no underline ranges, every underline row is suppressed.
proof fn lemma_under_row_empty(lo: int, hi: int)
    ensures
        under_row(lo, hi, Seq::<UnderlineRange>::empty()) == Seq::<char>::empty(),
{
}

/// The text rendered line by line with no decoration at all: each line
/// followed by the reset sequence and a newline, and nothing else.
pub open spec fn plain_render(t: Seq<char>) -> Seq<char>
    decreases t.len(),
    via plain_render_decreases
{
    if t.len() == 0 {
        Seq::empty()
    } else {
        let i = first_newline(t);
        let row = t.take(i) + escape_seq(AsciiColor::End) + seq!['\n'];
        if i == t.len() {
            row
        } else {
            row + plain_render(t.skip(i + 1))
        }
    }
}

#[via_fn]
proof fn plain_render_decreases(t: Seq<char>) {
    lemma_first_newline(t);
}

/// The text rendered line by line in one uniform color: each line led by
/// that color's escape sequence, followed by the reset sequence and a
/// newline, and nothing else.
pub open spec fn uniform_render(t: Seq<char>, d: AsciiColor) -> Seq<char>
    decreases t.len(),
    via uniform_render_decreases
{
    if t.len() == 0 {
        Seq::empty()
    } else {
        let i = first_newline(t);
        let row = escape_seq(d) + t.take(i) + escape_seq(AsciiColor::End) + seq!['\n'];
        if i == t.len() {
            row
        } else {
            row + uniform_render(t.skip(i + 1), d)
        }
    }
}

#[via_fn]
proof fn uniform_render_decreases(t: Seq<char>, d: AsciiColor) {
    lemma_first_newline(t);
}

/// With no ranges at all and no default color, the rendered text is the
/// plain line-by-line form, whatever the starting byte offset.
proof fn lemma_render_text_plain(t: Seq<char>, off: int)
    ensures
        render_text(
            t,
            off,
            None,
            Seq::<ColorRange>::empty(),
            Seq::<UnderlineRange>::empty(),
        ) == plain_render(t),
    decreases t.len(),
{
    if t.len() == 0 {
    } else {
        lemma_first_newline(t);
        let i = first_newline(t);
        let line = t.take(i);
        lemma_content_chars_plain(line, off, None);
        lemma_under_row_empty(off, off + bytes_len(line));
        if i == t.len() {
            assert(render_text(
                t,
                off,
                None,
                Seq::<ColorRange>::empty(),
                Seq::<UnderlineRange>::empty(),
            ) =~= plain_render(t));
        } else {
            lemma_render_text_plain(t.skip(i + 1), off + bytes_len(line) + 1);
            assert(render_text(
                t,
                off,
                None,
                Seq::<ColorRange>::empty(),
                Seq::<UnderlineRange>::empty(),
            ) =~= plain_render(t));
        }
    }
}

/// With no ranges at all and a default color, every character is emitted in
/// the default color, changing to the reset sequence only at line ends.
proof fn lemma_render_text_uniform(t: Seq<char>, off: int, d: AsciiColor)
    ensures
        render_text(
            t,
            off,
            Some(d),
            Seq::<ColorRange>::empty(),
            Seq::<UnderlineRange>::empty(),
        ) == uniform_render(t, d),
    decreases t.len(),
{
    if t.len() == 0 {
    } else {
        lemma_first_newline(t);
        let i = first_newline(t);
        let line = t.take(i);
        lemma_content_chars_plain(line, off, Some(d));
        lemma_under_row_empty(off, off + bytes_len(line));
        if i == t.len() {
            assert(render_text(
                t,
                off,
                Some(d),
                Seq::<ColorRange>::empty(),
                Seq::<UnderlineRange>::empty(),
            ) =~= uniform_render(t, d));
        } else {
            lemma_render_text_uniform(t.skip(i + 1), off + bytes_len(line) + 1, d);
            assert(render_text(
                t,
                off,
                Some(d),
                Seq::<ColorRange>::empty(),
                Seq::<UnderlineRange>::empty(),
            ) =~= uniform_render(t, d));
        }
    }
}

/// For any text with no ranges and no default color, rendering yields the
/// text line by line, each line followed by the reset sequence and a
/// newline, with no underline rows.
pub proof fn lemma_render_plain(v: CuteView, t: Seq<char>)
    requires
        v.text == Some(t),
        v.default_color is None,
        v.colors == Seq::<ColorRange>::empty(),
        v.underlines == Seq::<UnderlineRange>::empty(),
    ensures
        render_spec(v) == plain_render(t),
{
    lemma_render_text_plain(t, 0);
}

/// For any text with a default color and no ranges, every character is
/// emitted in the default color, changing to the reset sequence only at
/// line ends, with no underline rows.
pub proof fn lemma_render_uniform(v: CuteView, t: Seq<char>, d: AsciiColor)
    requires
        v.text == Some(t),
        v.default_color == Some(d),
        v.colors == Seq::<ColorRange>::empty(),
        v.underlines == Seq::<UnderlineRange>::empty(),
    ensures
        render_spec(v) == uniform_render(t, d),
{
    lemma_render_text_uniform(t, 0, d);
}

/// An underline row is emitted exactly when some byte offset of its span is
/// covered by an underline range, and omitted (contributing nothing to the
/// output) otherwise.
pub proof fn lemma_under_row_omitted(lo: int, hi: int, unders: Seq<UnderlineRange>)
    ensures
        (under_row(lo, hi, unders) == Seq::<char>::empty()) <==> !(exists|k: int|
            lo <= k < hi && under_at(unders, k) is Some),
{
    if exists|k: int| lo <= k < hi && under_at(unders, k) is Some {
        reveal_strlit("\x1b[0m");
        assert(under_row(lo, hi, unders).len() > 0);
    }
}

/// Rendering is a function of the aggregate's state alone: two renders of
/// equal states yield identical output, so calling `render` twice without
/// mutation in between yields identical output.
pub proof fn lemma_render_deterministic(v1: CuteView, v2: CuteView)
    requires
        v1 == v2,
    ensures
        render_spec(v1) == render_spec(v2),
{
}

} // verus!
