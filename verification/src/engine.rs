//! The annotated-text aggregate: the source text, an optional default
//! color, and the ordered collections of color and underline ranges, with
//! its mutation operations and the on-demand renderer.

use vstd::prelude::*;
use vstd::string::StringExecFns;

use crate::color::digit_color;
use crate::color::palette_color;
use crate::color::AsciiColor;
use crate::pattern::find_pattern_spans;
use crate::pattern::pattern_compiles;
use crate::pattern::pattern_spans;
use crate::pattern::CuteStringError;
use crate::ranges::ColorRange;
use crate::ranges::UnderlineRange;
use crate::render::render_text;
use crate::render::render_text_rows;
use crate::text::byte_len;
use crate::text::bytes_len;
use crate::text::char_bytes;
use crate::text::char_width;
use crate::text::line_start_off;
use crate::text::split_lines;

verus! {

/// The mathematical state of an annotated text: the optional source text,
/// the optional default color, and the two range collections in insertion
/// order.
pub ghost struct CuteView {
    pub text: Option<Seq<char>>,
    pub default_color: Option<AsciiColor>,
    pub colors: Seq<ColorRange>,
    pub underlines: Seq<UnderlineRange>,
}

/// An annotated text: a string to be colored, an optional default color,
/// and ordered collections of color ranges and underline ranges over the
/// string's byte offsets.
pub struct CuteString {
    string: Option<String>,
    default_color: Option<AsciiColor>,
    colored_ranges: Vec<ColorRange>,
    underlines: Vec<UnderlineRange>,
}

impl View for CuteString {
    type V = CuteView;

    closed spec fn view(&self) -> CuteView {
        CuteView {
            text: match self.string {
                Some(s) => Some(s@),
                None => None,
            },
            default_color: self.default_color,
            colors: self.colored_ranges@,
            underlines: self.underlines@,
        }
    }
}

/// What `render` returns, as a function of the aggregate's state: empty
/// output for unset text, else the rendered lines from byte offset zero.
pub open spec fn render_spec(v: CuteView) -> Seq<char> {
    match v.text {
        None => Seq::<char>::empty(),
        Some(t) => render_text(t, 0, v.default_color, v.colors, v.underlines),
    }
}

/// The color ranges that coloring every occurrence of `ch` appends: one
/// range per occurrence, of that occurrence's encoded byte width, at the
/// occurrence's byte offset. `off` is the byte offset of `t`'s first
/// character.
pub open spec fn char_ranges(t: Seq<char>, off: int, ch: char, color: AsciiColor) -> Seq<
    ColorRange,
>
    decreases t.len(),
{
    if t.len() == 0 {
        Seq::empty()
    } else {
        let w = char_bytes(t[0]);
        let rest = char_ranges(t.drop_first(), off + w, ch, color);
        if t[0] == ch {
            seq![ColorRange { start: off as usize, end: (off + w) as usize, color }] + rest
        } else {
            rest
        }
    }
}

/// The ranges that `color_char` appends for the aggregate state `v`.
pub open spec fn char_ranges_of(v: CuteView, ch: char, color: AsciiColor) -> Seq<ColorRange> {
    match v.text {
        Some(t) => char_ranges(t, 0, ch, color),
        None => Seq::empty(),
    }
}

/// Whether `c` maps to a base-10 digit value.
pub open spec fn is_decimal_digit(c: char) -> bool {
    48 <= c as u32 <= 57
}

/// The base-10 value of a decimal digit character.
pub open spec fn digit_value(c: char) -> int {
    c as u32 - 48
}

/// The color ranges that digit coloring appends: one single-byte range per
/// decimal digit of `t`, colored from the fixed digit palette. `off` is the
/// byte offset of `t`'s first character.
pub open spec fn digit_ranges(t: Seq<char>, off: int) -> Seq<ColorRange>
    decreases t.len(),
{
    if t.len() == 0 {
        Seq::empty()
    } else {
        let w = char_bytes(t[0]);
        let rest = digit_ranges(t.drop_first(), off + w);
        if is_decimal_digit(t[0]) {
            seq![
                ColorRange {
                    start: off as usize,
                    end: (off + 1) as usize,
                    color: digit_color(digit_value(t[0])),
                },
            ] + rest
        } else {
            rest
        }
    }
}

/// The single color range that line coloring appends: the byte span of the
/// 1-indexed line `line` of `t`, from the summed byte lengths (plus one
/// terminator byte each) of the preceding lines to the end of the line.
pub open spec fn line_range(t: Seq<char>, line: int, color: AsciiColor) -> ColorRange {
    let lines = split_lines(t);
    let start = line_start_off(lines, line - 1);
    ColorRange { start: start as usize, end: (start + bytes_len(lines[line - 1])) as usize, color }
}

/// The color ranges after line coloring: one range for the line's byte span
/// is appended when the 1-indexed line number is in range, and the ranges
/// are unchanged otherwise.
pub open spec fn colors_after_line(v: CuteView, line: int, color: AsciiColor) -> Seq<ColorRange> {
    match v.text {
        Some(t) => if 1 <= line <= split_lines(t).len() {
            v.colors.push(line_range(t, line, color))
        } else {
            v.colors
        },
        None => v.colors,
    }
}

/// The ranges that `color_digits` appends for the aggregate state `v`.
pub open spec fn digit_ranges_of(v: CuteView) -> Seq<ColorRange> {
    match v.text {
        Some(t) => digit_ranges(t, 0),
        None => Seq::empty(),
    }
}

/// One color range per match span, in match order.
pub open spec fn span_color_ranges(spans: Seq<(usize, usize)>, color: AsciiColor) -> Seq<
    ColorRange,
> {
    spans.map_values(|sp: (usize, usize)| ColorRange { start: sp.0, end: sp.1, color })
}

/// The ranges that `color_regex` appends on success for the state `v`.
pub open spec fn match_color_ranges(v: CuteView, p: Seq<char>, color: AsciiColor) -> Seq<
    ColorRange,
> {
    match v.text {
        Some(t) => span_color_ranges(pattern_spans(p, t), color),
        None => Seq::empty(),
    }
}

/// One underline range per match span, in match order.
pub open spec fn span_underline_ranges(
    spans: Seq<(usize, usize)>,
    color: AsciiColor,
    character: char,
) -> Seq<UnderlineRange> {
    spans.map_values(|sp: (usize, usize)| UnderlineRange { start: sp.0, end: sp.1, color, character })
}

/// The ranges that `underline_regex` appends on success for the state `v`.
pub open spec fn match_underline_ranges(
    v: CuteView,
    p: Seq<char>,
    color: AsciiColor,
    character: char,
) -> Seq<UnderlineRange> {
    match v.text {
        Some(t) => span_underline_ranges(pattern_spans(p, t), color, character),
        None => Seq::empty(),
    }
}

impl CuteString {
    /// Creates an empty aggregate: no text, no default color, no ranges.
    pub fn new() -> (r: CuteString)
        ensures
            r@.text is None,
            r@.default_color is None,
            r@.colors == Seq::<ColorRange>::empty(),
            r@.underlines == Seq::<UnderlineRange>::empty(),
    {
        CuteString {
            string: None,
            default_color: None,
            colored_ranges: Vec::new(),
            underlines: Vec::new(),
        }
    }

    /// Returns a copy of the string to be colored, if one is set.
    pub fn get_string(&self) -> (r: Option<String>)
        ensures
            match r {
                Some(s) => self@.text == Some(s@),
                None => self@.text is None,
            },
    {
        match &self.string {
            Some(s) => Some(s.clone()),
            None => None,
        }
    }

    /// Replaces the text to be colored. Existing ranges are kept untouched.
    pub fn set_string(&mut self, string: String)
        ensures
            final(self)@.text == Some(string@),
            final(self)@.default_color == old(self)@.default_color,
            final(self)@.colors == old(self)@.colors,
            final(self)@.underlines == old(self)@.underlines,
    {
        self.string = Some(string);
    }

    /// Sets the color applied to characters not covered by any color range.
    pub fn set_default_color(&mut self, color: AsciiColor)
        ensures
            final(self)@.default_color == Some(color),
            final(self)@.text == old(self)@.text,
            final(self)@.colors == old(self)@.colors,
            final(self)@.underlines == old(self)@.underlines,
    {
        self.default_color = Some(color);
    }

    /// Appends a color range for the byte offsets `[start, end)`. No
    /// validation and no merging: a malformed or out-of-bounds range simply
    /// never matches any character at render time.
    pub fn color_range(&mut self, start: usize, end: usize, color: AsciiColor)
        ensures
            final(self)@.colors == old(self)@.colors.push(ColorRange { start, end, color }),
            final(self)@.text == old(self)@.text,
            final(self)@.default_color == old(self)@.default_color,
            final(self)@.underlines == old(self)@.underlines,
    {
        self.colored_ranges.push(ColorRange { start, end, color });
    }

    /// Appends an underline range: each byte offset of `[start, end)` is
    /// underlined with `character`, colored with `color`.
    pub fn underline_with(&mut self, start: usize, end: usize, color: AsciiColor, character: char)
        ensures
            final(self)@.underlines == old(self)@.underlines.push(
                UnderlineRange { start, end, color, character },
            ),
            final(self)@.text == old(self)@.text,
            final(self)@.default_color == old(self)@.default_color,
            final(self)@.colors == old(self)@.colors,
    {
        self.underlines.push(UnderlineRange { start, end, color, character });
    }

    /// Appends one color range per occurrence of `ch` in the text, covering
    /// exactly that occurrence's encoded bytes. Does nothing when no text is
    /// set.
    pub fn color_char(&mut self, ch: char, color: AsciiColor)
        ensures
            final(self)@.colors == old(self)@.colors + char_ranges_of(old(self)@, ch, color),
            final(self)@.text == old(self)@.text,
            final(self)@.default_color == old(self)@.default_color,
            final(self)@.underlines == old(self)@.underlines,
    {
        let mut added: Vec<ColorRange> = Vec::new();
        match &self.string {
            None => (),
            Some(t) => {
                let s = t.as_str();
                let total: usize = byte_len(s);
                let n = s.unicode_len();
                let mut i: usize = 0;
                let mut boff: usize = 0;
                proof {
                    assert(s@.skip(0) =~= s@);
                    assert(s@.take(0) =~= Seq::<char>::empty());
                    assert(added@ + char_ranges(s@, 0, ch, color) =~= char_ranges(
                        s@,
                        0,
                        ch,
                        color,
                    ));
                }
                while i < n
                    invariant
                        n == s@.len(),
                        i <= n,
                        total == bytes_len(s@),
                        boff == bytes_len(s@.take(i as int)),
                        added@ + char_ranges(s@.skip(i as int), boff as int, ch, color)
                            == char_ranges(s@, 0, ch, color),
                    decreases n - i,
                {
                    let c = s.get_char(i);
                    proof {
                        crate::text::lemma_bytes_len_take_succ(s@, i as int);
                        crate::text::lemma_bytes_len_split(s@, i + 1 as int);
                        assert(s@.skip(i as int)[0] == s@[i as int]);
                        assert(s@.skip(i as int).drop_first() =~= s@.skip(i + 1 as int));
                    }
                    let w = char_width(c);
                    let ghost added0 = added@;
                    if c == ch {
                        added.push(ColorRange { start: boff, end: boff + w, color });
                    }
                    proof {
                        assert(added0 + char_ranges(s@.skip(i as int), boff as int, ch, color)
                            =~= added@ + char_ranges(
                            s@.skip(i + 1 as int),
                            boff + w as int,
                            ch,
                            color,
                        ));
                    }
                    boff = boff + w;
                    i = i + 1;
                }
                proof {
                    assert(s@.skip(n as int) =~= Seq::<char>::empty());
                    assert(added@ + char_ranges(Seq::<char>::empty(), boff as int, ch, color)
                        =~= added@);
                }
            },
        }
        proof {
            assert(self.colored_ranges@ + added@ =~= old(self)@.colors + char_ranges_of(
                old(self)@,
                ch,
                color,
            ));
        }
        self.colored_ranges.append(&mut added);
    }

    /// Appends one color range covering the byte span of the 1-indexed
    /// line `line` of the text. An out-of-range line number, or unset text,
    /// is silently ignored: no range is added.
    pub fn color_line(&mut self, line: usize, color: AsciiColor)
        ensures
            final(self)@.colors == colors_after_line(old(self)@, line as int, color),
            final(self)@.text == old(self)@.text,
            final(self)@.default_color == old(self)@.default_color,
            final(self)@.underlines == old(self)@.underlines,
    {
        if line == 0 {
            return ;
        }
        match &self.string {
            None => (),
            Some(t) => {
                let s = t.as_str();
                let total: usize = byte_len(s);
                let n = s.unicode_len();
                let ghost lines = split_lines(s@);
                let mut k: usize = 0;
                let mut cs: usize = 0;
                let mut boff: usize = 0;
                let mut result: Option<ColorRange> = None;
                proof {
                    assert(s@.skip(0) =~= s@);
                    assert(s@.take(0) =~= Seq::<char>::empty());
                    assert(lines.skip(0) =~= lines);
                }
                loop
                    invariant_except_break
                        result is None,
                    invariant
                        n == s@.len(),
                        total == bytes_len(s@),
                        lines == split_lines(s@),
                        cs <= n,
                        1 <= line,
                        k < line,
                        k <= lines.len(),
                        boff == bytes_len(s@.take(cs as int)),
                        boff == line_start_off(lines, k as int),
                        split_lines(s@.skip(cs as int)) == lines.skip(k as int),
                    ensures
                        match result {
                            Some(r) => 1 <= line <= lines.len() && r == line_range(
                                s@,
                                line as int,
                                color,
                            ),
                            None => line > lines.len(),
                        },
                    decreases n - cs,
                {
                    if cs == n {
                        proof {
                            assert(s@.skip(n as int) =~= Seq::<char>::empty());
                            assert(split_lines(Seq::<char>::empty()) =~= Seq::<Seq<char>>::empty());
                            assert(lines.skip(k as int).len() == 0);
                        }
                        break ;
                    }
                    // Find the char index of this line's terminator (or the
                    // text's end).
                    let mut j: usize = cs;
                    loop
                        invariant
                            n == s@.len(),
                            cs <= j <= n,
                            forall|m: int| cs <= m < j ==> s@[m] != '\n',
                        ensures
                            cs <= j <= n,
                            j == n || s@[j as int] == '\n',
                            forall|m: int| cs <= m < j ==> s@[m] != '\n',
                        decreases n - j,
                    {
                        if j == n {
                            break ;
                        }
                        let c = s.get_char(j);
                        if c == '\n' {
                            break ;
                        }
                        j = j + 1;
                    }
                    proof {
                        let suf = s@.skip(cs as int);
                        assert forall|m: int| 0 <= m < j - cs implies suf[m] != '\n' by {
                            assert(suf[m] == s@[cs + m]);
                        }
                        if j < n {
                            assert(suf[j - cs] == s@[j as int]);
                        }
                        crate::text::lemma_first_newline_unique(suf, j - cs);
                        assert(suf.take(j - cs) =~= s@.subrange(cs as int, j as int));
                        assert(s@.take(j as int) =~= s@.take(cs as int) + s@.subrange(
                            cs as int,
                            j as int,
                        ));
                        crate::text::lemma_bytes_len_concat(
                            s@.take(cs as int),
                            s@.subrange(cs as int, j as int),
                        );
                        crate::text::lemma_bytes_len_split(s@, j as int);
                        assert(s@.subrange(0, j as int) =~= s@.take(j as int));
                    }
                    let lm = s.substring_char(cs, j);
                    let line_bytes: usize = byte_len(lm);
                    proof {
                        // This line is `lines[k]`.
                        let suf = s@.skip(cs as int);
                        assert(suf.len() > 0);
                        assert(split_lines(suf).len() > 0);
                        assert(k < lines.len());
                        assert(split_lines(suf)[0] == suf.take(j - cs));
                        assert(lines.skip(k as int)[0] == lines[k as int]);
                        assert(lines[k as int] == s@.subrange(cs as int, j as int));
                    }
                    if k + 1 == line {
                        result = Some(ColorRange { start: boff, end: boff + line_bytes, color });
                        proof {
                            assert(lines.skip(k as int).len() > 0);
                            assert(1 <= line <= lines.len());
                            assert(lines[line - 1] == s@.subrange(cs as int, j as int));
                        }
                        break ;
                    }
                    if j == n {
                        proof {
                            assert(split_lines(s@.skip(cs as int)) =~= seq![s@.skip(cs as int)]);
                            assert(lines.skip(k as int).len() == 1);
                            assert(lines.len() == k + 1);
                        }
                        break ;
                    }
                    proof {
                        let suf = s@.skip(cs as int);
                        assert(split_lines(suf) == seq![suf.take(j - cs)] + split_lines(
                            suf.skip(j - cs + 1),
                        ));
                        assert(suf.skip(j - cs + 1) =~= s@.skip(j + 1 as int));
                        assert(lines.skip(k as int).drop_first() =~= lines.skip(k + 1 as int));
                        assert(split_lines(s@.skip(j + 1 as int)) =~= lines.skip(k + 1 as int));
                        // Advance the byte offset past the line and its
                        // terminator.
                        assert(s@.take(j + 1 as int) =~= s@.take(j as int) + seq![s@[j as int]]);
                        crate::text::lemma_bytes_len_concat(s@.take(j as int), seq![s@[j as int]]);
                        crate::text::lemma_bytes_len_single(s@[j as int]);
                        assert(char_bytes('\n') == 1);
                        crate::text::lemma_bytes_len_split(s@, j + 1 as int);
                        assert(line_start_off(lines, k + 1 as int) == line_start_off(
                            lines,
                            k as int,
                        ) + bytes_len(lines[k as int]) + 1);
                    }
                    boff = boff + line_bytes + 1;
                    cs = j + 1;
                    k = k + 1;
                }
                match result {
                    Some(r) => {
                        self.colored_ranges.push(r);
                    },
                    None => (),
                }
            },
        }
    }

    /// Appends one single-byte color range per decimal digit of the text,
    /// colored from the fixed digit palette: the same digit always gets the
    /// same color. Does nothing when no text is set.
    pub fn color_digits(&mut self)
        ensures
            final(self)@.colors == old(self)@.colors + digit_ranges_of(old(self)@),
            final(self)@.text == old(self)@.text,
            final(self)@.default_color == old(self)@.default_color,
            final(self)@.underlines == old(self)@.underlines,
    {
        let mut added: Vec<ColorRange> = Vec::new();
        match &self.string {
            None => (),
            Some(t) => {
                let s = t.as_str();
                let total: usize = byte_len(s);
                let n = s.unicode_len();
                let mut i: usize = 0;
                let mut boff: usize = 0;
                proof {
                    assert(s@.skip(0) =~= s@);
                    assert(s@.take(0) =~= Seq::<char>::empty());
                    assert(added@ + digit_ranges(s@, 0) =~= digit_ranges(s@, 0));
                }
                while i < n
                    invariant
                        n == s@.len(),
                        i <= n,
                        total == bytes_len(s@),
                        boff == bytes_len(s@.take(i as int)),
                        added@ + digit_ranges(s@.skip(i as int), boff as int) == digit_ranges(
                            s@,
                            0,
                        ),
                    decreases n - i,
                {
                    let c = s.get_char(i);
                    proof {
                        crate::text::lemma_bytes_len_take_succ(s@, i as int);
                        crate::text::lemma_bytes_len_split(s@, i + 1 as int);
                        crate::text::lemma_char_bytes_bounds(c);
                        assert(s@.skip(i as int)[0] == s@[i as int]);
                        assert(s@.skip(i as int).drop_first() =~= s@.skip(i + 1 as int));
                    }
                    let w = char_width(c);
                    let u = c as u32;
                    let ghost added0 = added@;
                    if 48 <= u && u <= 57 {
                        added.push(
                            ColorRange { start: boff, end: boff + 1, color: palette_color(u - 48) },
                        );
                    }
                    proof {
                        assert(added0 + digit_ranges(s@.skip(i as int), boff as int) =~= added@
                            + digit_ranges(s@.skip(i + 1 as int), boff + w as int));
                    }
                    boff = boff + w;
                    i = i + 1;
                }
                proof {
                    assert(s@.skip(n as int) =~= Seq::<char>::empty());
                    assert(added@ + digit_ranges(Seq::<char>::empty(), boff as int) =~= added@);
                }
            },
        }
        proof {
            assert(self.colored_ranges@ + added@ =~= old(self)@.colors + digit_ranges_of(
                old(self)@,
            ));
        }
        self.colored_ranges.append(&mut added);
    }

    /// Clears the color ranges and the default color. The text and the
    /// underline ranges are kept untouched.
    pub fn reset_colors(&mut self)
        ensures
            final(self)@.colors == Seq::<ColorRange>::empty(),
            final(self)@.default_color is None,
            final(self)@.text == old(self)@.text,
            final(self)@.underlines == old(self)@.underlines,
    {
        self.colored_ranges = Vec::new();
        self.default_color = None;
    }

    /// Appends one color range per match of `pattern` in the text. Fails,
    /// and leaves the aggregate unchanged, exactly when the external
    /// matcher rejects the pattern; a pattern with no matches, or unset
    /// text, appends nothing.
    pub fn color_regex(&mut self, pattern: &str, color: AsciiColor) -> (r: Result<
        (),
        CuteStringError,
    >)
        ensures
            r is Ok <==> pattern_compiles(pattern@),
            r is Err ==> final(self)@ == old(self)@,
            r is Ok ==> final(self)@.colors == old(self)@.colors + match_color_ranges(
                old(self)@,
                pattern@,
                color,
            ),
            final(self)@.text == old(self)@.text,
            final(self)@.default_color == old(self)@.default_color,
            final(self)@.underlines == old(self)@.underlines,
    {
        let found = match &self.string {
            Some(t) => find_pattern_spans(pattern, t.as_str()),
            None => find_pattern_spans(pattern, ""),
        };
        match found {
            Err(e) => Err(CuteStringError::RegexError(e)),
            Ok(spans) => {
                if self.string.is_some() {
                    proof {
                        assert(spans@.take(0) =~= Seq::<(usize, usize)>::empty());
                        assert(span_color_ranges(spans@.take(0), color) =~= Seq::<
                            ColorRange,
                        >::empty());
                        assert(old(self)@.colors + Seq::<ColorRange>::empty() =~= old(
                            self,
                        )@.colors);
                    }
                    let mut i: usize = 0;
                    while i < spans.len()
                        invariant
                            i <= spans@.len(),
                            self@.colors == old(self)@.colors + span_color_ranges(
                                spans@.take(i as int),
                                color,
                            ),
                            self@.text == old(self)@.text,
                            self@.default_color == old(self)@.default_color,
                            self@.underlines == old(self)@.underlines,
                        decreases spans@.len() - i,
                    {
                        let sp = spans[i];
                        self.colored_ranges.push(ColorRange { start: sp.0, end: sp.1, color });
                        proof {
                            assert(spans@.take(i + 1 as int) =~= spans@.take(i as int).push(
                                spans@[i as int],
                            ));
                            assert(span_color_ranges(spans@.take(i + 1 as int), color)
                                =~= span_color_ranges(spans@.take(i as int), color).push(
                                ColorRange { start: sp.0, end: sp.1, color },
                            ));
                            assert(old(self)@.colors + span_color_ranges(
                                spans@.take(i + 1 as int),
                                color,
                            ) =~= (old(self)@.colors + span_color_ranges(
                                spans@.take(i as int),
                                color,
                            )).push(ColorRange { start: sp.0, end: sp.1, color }));
                        }
                        i = i + 1;
                    }
                    proof {
                        assert(spans@.take(spans@.len() as int) =~= spans@);
                    }
                } else {
                    proof {
                        assert(old(self)@.colors + Seq::<ColorRange>::empty() =~= old(
                            self,
                        )@.colors);
                    }
                }
                Ok(())
            },
        }
    }

    /// Appends one underline range per match of `pattern` in the text,
    /// drawing `character` in `color` under each match. Fails, and leaves
    /// the aggregate unchanged, exactly when the external matcher rejects
    /// the pattern; a pattern with no matches, or unset text, appends
    /// nothing.
    pub fn underline_regex(&mut self, pattern: &str, color: AsciiColor, character: char) -> (r:
        Result<(), CuteStringError>)
        ensures
            r is Ok <==> pattern_compiles(pattern@),
            r is Err ==> final(self)@ == old(self)@,
            r is Ok ==> final(self)@.underlines == old(self)@.underlines + match_underline_ranges(
                old(self)@,
                pattern@,
                color,
                character,
            ),
            final(self)@.text == old(self)@.text,
            final(self)@.default_color == old(self)@.default_color,
            final(self)@.colors == old(self)@.colors,
    {
        let found = match &self.string {
            Some(t) => find_pattern_spans(pattern, t.as_str()),
            None => find_pattern_spans(pattern, ""),
        };
        match found {
            Err(e) => Err(CuteStringError::RegexError(e)),
            Ok(spans) => {
                if self.string.is_some() {
                    proof {
                        assert(spans@.take(0) =~= Seq::<(usize, usize)>::empty());
                        assert(span_underline_ranges(spans@.take(0), color, character) =~= Seq::<
                            UnderlineRange,
                        >::empty());
                        assert(old(self)@.underlines + Seq::<UnderlineRange>::empty() =~= old(
                            self,
                        )@.underlines);
                    }
                    let mut i: usize = 0;
                    while i < spans.len()
                        invariant
                            i <= spans@.len(),
                            self@.underlines == old(self)@.underlines + span_underline_ranges(
                                spans@.take(i as int),
                                color,
                                character,
                            ),
                            self@.text == old(self)@.text,
                            self@.default_color == old(self)@.default_color,
                            self@.colors == old(self)@.colors,
                        decreases spans@.len() - i,
                    {
                        let sp = spans[i];
                        self.underlines.push(
                            UnderlineRange { start: sp.0, end: sp.1, color, character },
                        );
                        proof {
                            assert(spans@.take(i + 1 as int) =~= spans@.take(i as int).push(
                                spans@[i as int],
                            ));
                            assert(span_underline_ranges(spans@.take(i + 1 as int), color, character)
                                =~= span_underline_ranges(spans@.take(i as int), color, character)
                                .push(UnderlineRange { start: sp.0, end: sp.1, color, character }));
                            assert(old(self)@.underlines + span_underline_ranges(
                                spans@.take(i + 1 as int),
                                color,
                                character,
                            ) =~= (old(self)@.underlines + span_underline_ranges(
                                spans@.take(i as int),
                                color,
                                character,
                            )).push(UnderlineRange { start: sp.0, end: sp.1, color, character }));
                        }
                        i = i + 1;
                    }
                    proof {
                        assert(spans@.take(spans@.len() as int) =~= spans@);
                    }
                } else {
                    proof {
                        assert(old(self)@.underlines + Seq::<UnderlineRange>::empty() =~= old(
                            self,
                        )@.underlines);
                    }
                }
                Ok(())
            },
        }
    }

    /// Renders the annotated text as ANSI escape-coded output. Rendering is
    /// pure: it re-walks the ranges on every call and never changes the
    /// aggregate.
    pub fn render(&self) -> (r: String)
        ensures
            r@ == render_spec(self@),
    {
        match &self.string {
            None => String::new(),
            Some(t) => {
                let s = t.as_str();
                let total: usize = byte_len(s);
                assert(bytes_len(s@) <= usize::MAX);
                render_text_rows(s, 0, self.default_color, &self.colored_ranges, &self.underlines)
            },
        }
    }
}

impl From<String> for CuteString {
    /// An aggregate over the given text, with no default color and no
    /// ranges.
    fn from(s: String) -> (r: CuteString)
        ensures
            r@.text == Some(s@),
            r@.default_color is None,
            r@.colors == Seq::<ColorRange>::empty(),
            r@.underlines == Seq::<UnderlineRange>::empty(),
    {
        CuteString {
            string: Some(s),
            default_color: None,
            colored_ranges: Vec::new(),
            underlines: Vec::new(),
        }
    }
}

impl vstd::std_specs::convert::FromSpecImpl<String> for CuteString {
    open spec fn obeys_from_spec() -> bool {
        false
    }

    open spec fn from_spec(s: String) -> CuteString {
        arbitrary()
    }
}

impl From<&str> for CuteString {
    /// An aggregate over a copy of the given text, with no default color
    /// and no ranges.
    fn from(s: &str) -> (r: CuteString)
        ensures
            r@.text == Some(s@),
            r@.default_color is None,
            r@.colors == Seq::<ColorRange>::empty(),
            r@.underlines == Seq::<UnderlineRange>::empty(),
    {
        CuteString {
            string: Some(String::from_str(s)),
            default_color: None,
            colored_ranges: Vec::new(),
            underlines: Vec::new(),
        }
    }
}

impl vstd::std_specs::convert::FromSpecImpl<&str> for CuteString {
    open spec fn obeys_from_spec() -> bool {
        false
    }

    open spec fn from_spec(s: &str) -> CuteString {
        arbitrary()
    }
}

} // verus!
