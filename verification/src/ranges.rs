//! Color and underline ranges, and how overlapping ranges are resolved to a
//! single effective decoration per byte offset.

use vstd::prelude::*;

use crate::color::AsciiColor;

verus! {

/// A half-open span `[start, end)` of byte offsets shown in `color`.
#[derive(PartialEq, Eq, Clone, Copy, Structural)]
pub struct ColorRange {
    pub start: usize,
    pub end: usize,
    pub color: AsciiColor,
}

/// A half-open span `[start, end)` of byte offsets under which `character`
/// is drawn, shown in `color`.
#[derive(PartialEq, Eq, Clone, Copy, Structural)]
pub struct UnderlineRange {
    pub start: usize,
    pub end: usize,
    pub color: AsciiColor,
    pub character: char,
}

/// Whether the byte offset `off` lies inside the color range `r`.
pub open spec fn color_covers(r: ColorRange, off: int) -> bool {
    r.start <= off < r.end
}

/// Whether the byte offset `off` lies inside the underline range `r`.
pub open spec fn under_covers(r: UnderlineRange, off: int) -> bool {
    r.start <= off < r.end
}

/// The effective color at byte offset `off`: the last range in insertion
/// order that covers `off` wins, or `None` when no range covers it.
pub open spec fn color_at(ranges: Seq<ColorRange>, off: int) -> Option<AsciiColor>
    decreases ranges.len(),
{
    if ranges.len() == 0 {
        None
    } else if color_covers(ranges.last(), off) {
        Some(ranges.last().color)
    } else {
        color_at(ranges.drop_last(), off)
    }
}

/// The effective underline at byte offset `off`: the first range in
/// insertion order that covers `off` wins, or `None` when no range covers it.
pub open spec fn under_at(ranges: Seq<UnderlineRange>, off: int) -> Option<UnderlineRange>
    decreases ranges.len(),
{
    if ranges.len() == 0 {
        None
    } else if under_covers(ranges.first(), off) {
        Some(ranges.first())
    } else {
        under_at(ranges.drop_first(), off)
    }
}

/// Overlapping color ranges resolve to the most recently added covering
/// range: if `ranges[i]` covers `off` and no later range does, the effective
/// color at `off` is `ranges[i].color`.
pub proof fn lemma_color_last_writer_wins(ranges: Seq<ColorRange>, off: int, i: int)
    requires
        0 <= i < ranges.len(),
        color_covers(ranges[i], off),
        forall|j: int| i < j < ranges.len() ==> !color_covers(ranges[j], off),
    ensures
        color_at(ranges, off) == Some(ranges[i].color),
    decreases ranges.len(),
{
    if i == ranges.len() - 1 {
        assert(ranges.last() == ranges[i]);
    } else {
        assert(!color_covers(ranges.last(), off));
        assert(ranges.drop_last()[i] == ranges[i]);
        lemma_color_last_writer_wins(ranges.drop_last(), off, i);
    }
}

/// When no color range covers `off`, the effective color there is `None`.
pub proof fn lemma_color_uncovered(ranges: Seq<ColorRange>, off: int)
    requires
        forall|j: int| 0 <= j < ranges.len() ==> !color_covers(ranges[j], off),
    ensures
        color_at(ranges, off) is None,
    decreases ranges.len(),
{
    if ranges.len() > 0 {
        lemma_color_uncovered(ranges.drop_last(), off);
    }
}

/// Overlapping underline ranges resolve to the first added covering range:
/// if `ranges[i]` covers `off` and no earlier range does, the effective
/// underline at `off` is `ranges[i]`.
pub proof fn lemma_under_first_match_wins(ranges: Seq<UnderlineRange>, off: int, i: int)
    requires
        0 <= i < ranges.len(),
        under_covers(ranges[i], off),
        forall|j: int| 0 <= j < i ==> !under_covers(ranges[j], off),
    ensures
        under_at(ranges, off) == Some(ranges[i]),
    decreases i,
{
    if i == 0 {
    } else {
        assert(!under_covers(ranges.first(), off));
        assert(ranges.drop_first()[i - 1] == ranges[i]);
        lemma_under_first_match_wins(ranges.drop_first(), off, i - 1);
    }
}

/// When no underline range covers `off`, the effective underline there is
/// `None`.
pub proof fn lemma_under_uncovered(ranges: Seq<UnderlineRange>, off: int)
    requires
        forall|j: int| 0 <= j < ranges.len() ==> !under_covers(ranges[j], off),
    ensures
        under_at(ranges, off) is None,
    decreases ranges.len(),
{
    if ranges.len() > 0 {
        lemma_under_uncovered(ranges.drop_first(), off);
    }
}

} // verus!
