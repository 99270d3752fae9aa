//! The rendering engine: composes the annotated text, its color ranges and
//! its underline ranges into ANSI escape-coded output, line by line.
//!
//! The specification functions here define the rendered output exactly; the
//! executable functions are proved to produce it.

use vstd::prelude::*;

use crate::color::escape_seq;
use crate::color::AsciiColor;
use crate::ranges::color_at;
use crate::ranges::under_at;
use crate::ranges::ColorRange;
use crate::ranges::UnderlineRange;
use crate::text::byte_len;
use crate::text::bytes_len;
use crate::text::char_bytes;
use crate::text::char_width;
use crate::text::first_newline;
use crate::text::push_char;
use crate::text::lemma_bytes_len_concat;
use crate::text::lemma_bytes_len_single;
use crate::text::lemma_bytes_len_split;
use crate::text::lemma_bytes_len_take_succ;
use crate::text::lemma_first_newline_unique;
use vstd::string::StrSliceExecFns;
use vstd::string::StringExecFns;

verus! {

/// The escape sequence emitted before a content character whose effective
/// color `eff` differs from the color state `cur`: the new range color, or
/// the default color when the character leaves all ranges, or the reset
/// sequence when no default is set. Nothing is emitted when the state is
/// unchanged.
pub open spec fn content_transition(
    eff: Option<AsciiColor>,
    cur: Option<AsciiColor>,
    d: Option<AsciiColor>,
) -> Seq<char> {
    if eff == cur {
        Seq::empty()
    } else {
        match eff {
            Some(c) => escape_seq(c),
            None => match d {
                Some(dc) => escape_seq(dc),
                None => escape_seq(AsciiColor::End),
            },
        }
    }
}

/// The characters of one content row after the leading default-color code:
/// each character of `line` at its absolute byte offset, preceded by an
/// escape sequence whenever its effective color differs from the previous
/// character's.
pub open spec fn content_chars(
    line: Seq<char>,
    off: int,
    d: Option<AsciiColor>,
    colors: Seq<ColorRange>,
    cur: Option<AsciiColor>,
) -> Seq<char>
    decreases line.len(),
{
    if line.len() == 0 {
        Seq::empty()
    } else {
        let eff = color_at(colors, off);
        content_transition(eff, cur, d) + seq![line[0]] + content_chars(
            line.drop_first(),
            off + char_bytes(line[0]),
            d,
            colors,
            eff,
        )
    }
}

/// One content row: the default color's code if a default is set, the
/// line's characters with minimized escape transitions, then the reset
/// sequence and a newline.
pub open spec fn content_row(
    line: Seq<char>,
    off: int,
    d: Option<AsciiColor>,
    colors: Seq<ColorRange>,
) -> Seq<char> {
    (match d {
        Some(c) => escape_seq(c),
        None => Seq::<char>::empty(),
    }) + content_chars(line, off, d, colors, None) + escape_seq(AsciiColor::End) + seq!['\n']
}

/// The escape sequence emitted in an underline row when the underline color
/// changes from `cur` to `u`: the new color, or the reset sequence when the
/// offset leaves all underline ranges.
pub open spec fn under_transition(u: Option<AsciiColor>, cur: Option<AsciiColor>) -> Seq<char> {
    if u == cur {
        Seq::empty()
    } else {
        match u {
            Some(c) => escape_seq(c),
            None => escape_seq(AsciiColor::End),
        }
    }
}

/// The characters of one underline row over the byte offsets `[lo, hi)`:
/// the effective underline range's glyph at covered offsets, a space
/// elsewhere, with minimized escape transitions.
pub open spec fn under_chars(
    lo: int,
    hi: int,
    unders: Seq<UnderlineRange>,
    cur: Option<AsciiColor>,
) -> Seq<char>
    decreases hi - lo,
{
    if lo >= hi {
        Seq::empty()
    } else {
        let u = under_at(unders, lo);
        let ucolor = match u {
            Some(r) => Some(r.color),
            None => None,
        };
        let glyph = match u {
            Some(r) => r.character,
            None => ' ',
        };
        under_transition(ucolor, cur) + seq![glyph] + under_chars(lo + 1, hi, unders, ucolor)
    }
}

/// One underline row for the byte offsets `[lo, hi)`, closed by the reset
/// sequence and a newline. The row is suppressed entirely when no offset of
/// the span is covered by any underline range.
pub open spec fn under_row(lo: int, hi: int, unders: Seq<UnderlineRange>) -> Seq<char> {
    if exists|k: int| lo <= k < hi && under_at(unders, k) is Some {
        under_chars(lo, hi, unders, None) + escape_seq(AsciiColor::End) + seq!['\n']
    } else {
        Seq::empty()
    }
}

/// One rendered line: its content row, then its underline row (possibly
/// suppressed). `off` is the absolute byte offset of the line's first byte.
pub open spec fn render_line(
    line: Seq<char>,
    off: int,
    d: Option<AsciiColor>,
    colors: Seq<ColorRange>,
    unders: Seq<UnderlineRange>,
) -> Seq<char> {
    content_row(line, off, d, colors) + under_row(off, off + bytes_len(line), unders)
}

/// The rendered output of the text `t` whose first byte sits at absolute
/// byte offset `off`: each line's rows in order, the running offset
/// advancing past each line's bytes and its consumed `'\n'` terminator.
pub open spec fn render_text(
    t: Seq<char>,
    off: int,
    d: Option<AsciiColor>,
    colors: Seq<ColorRange>,
    unders: Seq<UnderlineRange>,
) -> Seq<char>
    decreases t.len(),
    via render_text_decreases
{
    if t.len() == 0 {
        Seq::empty()
    } else {
        let i = first_newline(t);
        let line = t.take(i);
        if i == t.len() {
            render_line(line, off, d, colors, unders)
        } else {
            render_line(line, off, d, colors, unders) + render_text(
                t.skip(i + 1),
                off + bytes_len(line) + 1,
                d,
                colors,
                unders,
            )
        }
    }
}

#[via_fn]
proof fn render_text_decreases(
    t: Seq<char>,
    off: int,
    d: Option<AsciiColor>,
    colors: Seq<ColorRange>,
    unders: Seq<UnderlineRange>,
) {
    crate::text::lemma_first_newline(t);
}

/// The effective color at byte offset `off`: the last covering range wins.
pub fn effective_color(colors: &Vec<ColorRange>, off: usize) -> (r: Option<AsciiColor>)
    ensures
        r == color_at(colors@, off as int),
{
    proof {
        assert(colors@.take(colors@.len() as int) =~= colors@);
    }
    let mut j: usize = colors.len();
    while j > 0
        invariant
            j <= colors.len(),
            color_at(colors@, off as int) == color_at(colors@.take(j as int), off as int),
        decreases j,
    {
        j = j - 1;
        let r = colors[j];
        proof {
            assert(colors@.take(j + 1 as int).last() == colors@[j as int]);
            assert(colors@.take(j + 1 as int).drop_last() =~= colors@.take(j as int));
        }
        if r.start <= off && off < r.end {
            return Some(r.color);
        }
    }
    proof {
        assert(colors@.take(0) =~= Seq::<ColorRange>::empty());
    }
    None
}

/// The effective underline range at byte offset `off`: the first covering
/// range wins.
pub fn effective_underline(unders: &Vec<UnderlineRange>, off: usize) -> (r: Option<UnderlineRange>)
    ensures
        r == under_at(unders@, off as int),
{
    proof {
        assert(unders@.skip(0) =~= unders@);
    }
    let mut j: usize = 0;
    while j < unders.len()
        invariant
            j <= unders.len(),
            under_at(unders@, off as int) == under_at(unders@.skip(j as int), off as int),
        decreases unders.len() - j,
    {
        let r = unders[j];
        proof {
            assert(unders@.skip(j as int).first() == unders@[j as int]);
            assert(unders@.skip(j as int).drop_first() =~= unders@.skip(j + 1 as int));
        }
        if r.start <= off && off < r.end {
            return Some(r);
        }
        j = j + 1;
    }
    None
}

/// Whether two optional colors are the same.
fn same_color(a: Option<AsciiColor>, b: Option<AsciiColor>) -> (r: bool)
    ensures
        r == (a == b),
{
    match (a, b) {
        (None, None) => true,
        (Some(x), Some(y)) => x == y,
        _ => false,
    }
}

/// Renders one content row for `line`, whose first byte sits at absolute
/// byte offset `off`.
fn render_content_row(
    line: &str,
    off: usize,
    d: Option<AsciiColor>,
    colors: &Vec<ColorRange>,
) -> (r: String)
    requires
        off + bytes_len(line@) <= usize::MAX,
    ensures
        r@ == content_row(line@, off as int, d, colors@),
{
    let mut out = String::new();
    match d {
        Some(c) => out.append(c.escape()),
        None => (),
    }
    let n = line.unicode_len();
    let mut i: usize = 0;
    let mut boff: usize = off;
    let mut cur: Option<AsciiColor> = None;
    proof {
        assert(line@.skip(0) =~= line@);
        assert(line@.take(0) =~= Seq::<char>::empty());
        assert(bytes_len(Seq::<char>::empty()) == 0);
    }
    while i < n
        invariant
            n == line@.len(),
            i <= n,
            off + bytes_len(line@) <= usize::MAX,
            boff == off + bytes_len(line@.take(i as int)),
            content_row(line@, off as int, d, colors@) == out@ + content_chars(
                line@.skip(i as int),
                boff as int,
                d,
                colors@,
                cur,
            ) + escape_seq(AsciiColor::End) + seq!['\n'],
        decreases n - i,
    {
        let c = line.get_char(i);
        let eff = effective_color(colors, boff);
        proof {
            lemma_bytes_len_take_succ(line@, i as int);
            lemma_bytes_len_split(line@, i + 1 as int);
            assert(line@.skip(i as int)[0] == line@[i as int]);
            assert(line@.skip(i as int).drop_first() =~= line@.skip(i + 1 as int));
        }
        let ghost out0 = out@;
        if !same_color(eff, cur) {
            match eff {
                Some(ec) => out.append(ec.escape()),
                None => match d {
                    Some(dc) => out.append(dc.escape()),
                    None => out.append(AsciiColor::End.escape()),
                },
            }
        }
        push_char(&mut out, c);
        proof {
            assert(out@ =~= out0 + content_transition(eff, cur, d) + seq![c]);
            assert(content_chars(line@.skip(i as int), boff as int, d, colors@, cur)
                == content_transition(eff, cur, d) + seq![c] + content_chars(
                line@.skip(i + 1 as int),
                boff + char_bytes(c),
                d,
                colors@,
                eff,
            ));
            assert(out0 + content_chars(line@.skip(i as int), boff as int, d, colors@, cur)
                =~= out@ + content_chars(
                line@.skip(i + 1 as int),
                boff + char_bytes(c),
                d,
                colors@,
                eff,
            ));
        }
        cur = eff;
        boff = boff + char_width(c);
        i = i + 1;
    }
    proof {
        assert(line@.skip(n as int) =~= Seq::<char>::empty());
        assert(content_chars(Seq::<char>::empty(), boff as int, d, colors@, cur)
            == Seq::<char>::empty());
    }
    out.append(AsciiColor::End.escape());
    push_char(&mut out, '\n');
    proof {
        assert(out@ =~= content_row(line@, off as int, d, colors@));
    }
    out
}

/// Renders the underline row for the byte offsets `[lo, hi)`, or nothing
/// when no offset in the span is covered by an underline range.
fn render_under_row(lo: usize, hi: usize, unders: &Vec<UnderlineRange>) -> (r: String)
    requires
        lo <= hi,
    ensures
        r@ == under_row(lo as int, hi as int, unders@),
{
    let mut any = false;
    let mut i: usize = lo;
    while i < hi
        invariant
            lo <= i <= hi,
            any == exists|k: int| lo <= k < i && under_at(unders@, k) is Some,
        decreases hi - i,
    {
        match effective_underline(unders, i) {
            Some(_) => {
                any = true;
            },
            None => (),
        }
        i = i + 1;
    }
    if !any {
        return String::new();
    }
    let mut out = String::new();
    let mut j: usize = lo;
    let mut cur: Option<AsciiColor> = None;
    while j < hi
        invariant
            lo <= j <= hi,
            under_chars(lo as int, hi as int, unders@, None) == out@ + under_chars(
                j as int,
                hi as int,
                unders@,
                cur,
            ),
        decreases hi - j,
    {
        let u = effective_underline(unders, j);
        let ucolor = match u {
            Some(r) => Some(r.color),
            None => None,
        };
        let glyph = match u {
            Some(r) => r.character,
            None => ' ',
        };
        let ghost out0 = out@;
        if !same_color(ucolor, cur) {
            match ucolor {
                Some(c) => out.append(c.escape()),
                None => out.append(AsciiColor::End.escape()),
            }
        }
        push_char(&mut out, glyph);
        proof {
            assert(out@ =~= out0 + under_transition(ucolor, cur) + seq![glyph]);
            assert(under_chars(j as int, hi as int, unders@, cur) == under_transition(ucolor, cur)
                + seq![glyph] + under_chars(j + 1 as int, hi as int, unders@, ucolor));
            assert(out0 + under_chars(j as int, hi as int, unders@, cur) =~= out@ + under_chars(
                j + 1 as int,
                hi as int,
                unders@,
                ucolor,
            ));
        }
        cur = ucolor;
        j = j + 1;
    }
    out.append(AsciiColor::End.escape());
    push_char(&mut out, '\n');
    proof {
        assert(out@ =~= under_chars(lo as int, hi as int, unders@, None) + escape_seq(
            AsciiColor::End,
        ) + seq!['\n']);
    }
    out
}

/// Renders the text suffix `s`, whose first byte sits at absolute byte
/// offset `off`, line by line.
pub fn render_text_rows(
    s: &str,
    off: usize,
    d: Option<AsciiColor>,
    colors: &Vec<ColorRange>,
    unders: &Vec<UnderlineRange>,
) -> (r: String)
    requires
        off + bytes_len(s@) <= usize::MAX,
    ensures
        r@ == render_text(s@, off as int, d, colors@, unders@),
    decreases s@.len(),
{
    let n = s.unicode_len();
    if n == 0 {
        return String::new();
    }
    let mut j: usize = 0;
    loop
        invariant
            n == s@.len(),
            j <= n,
            forall|k: int| 0 <= k < j ==> s@[k] != '\n',
        ensures
            j <= n,
            j == n || s@[j as int] == '\n',
            forall|k: int| 0 <= k < j ==> s@[k] != '\n',
        decreases n - j,
    {
        if j == n {
            break ;
        }
        let c = s.get_char(j);
        if c == '\n' {
            break ;
        }
        j = j + 1;
    }
    proof {
        lemma_first_newline_unique(s@, j as int);
        lemma_bytes_len_split(s@, j as int);
        assert(s@.subrange(0, j as int) =~= s@.take(j as int));
    }
    let line = s.substring_char(0, j);
    let line_bytes = byte_len(line);
    let mut out = render_content_row(line, off, d, colors);
    let under = render_under_row(off, off + line_bytes, unders);
    out.append(under.as_str());
    if j < n {
        proof {
            assert(s@.skip(j as int) =~= seq!['\n'] + s@.skip(j + 1 as int));
            lemma_bytes_len_concat(seq!['\n'], s@.skip(j + 1 as int));
            lemma_bytes_len_single('\n');
            assert(char_bytes('\n') == 1);
            assert(s@.subrange(j + 1 as int, n as int) =~= s@.skip(j + 1 as int));
        }
        let rest = s.substring_char(j + 1, n);
        let rest_out = render_text_rows(rest, off + line_bytes + 1, d, colors, unders);
        out.append(rest_out.as_str());
        proof {
            assert(out@ =~= render_line(line@, off as int, d, colors@, unders@) + render_text(
                s@.skip(j + 1 as int),
                off + line_bytes + 1 as int,
                d,
                colors@,
                unders@,
            ));
        }
    } else {
        proof {
            assert(out@ =~= render_line(line@, off as int, d, colors@, unders@));
        }
    }
    out
}

} // verus!
