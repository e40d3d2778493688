//! Places in a text: offset, line and column.

use vstd::prelude::*;

verus! {

/// A place in the source text.
///
/// `pos` counts characters from the start of the text, `line` and `col` are
/// 1-based. A line break ends its line: the character after it is at column 1
/// of the next line.
#[derive(Debug, Clone, Copy, PartialEq, Eq)]
pub struct Loc {
    pub pos: usize,
    pub col: usize,
    pub line: usize,
}

/// The line on which the character at offset `pos` of `src` stands.
pub open spec fn line_at(src: Seq<char>, pos: int) -> nat
    decreases pos,
{
    if pos <= 0 {
        1
    } else if src[pos - 1] == '\n' {
        line_at(src, pos - 1) + 1
    } else {
        line_at(src, pos - 1)
    }
}

/// The column at which the character at offset `pos` of `src` stands.
pub open spec fn col_at(src: Seq<char>, pos: int) -> nat
    decreases pos,
{
    if pos <= 0 {
        1
    } else if src[pos - 1] == '\n' {
        1
    } else {
        col_at(src, pos - 1) + 1
    }
}

/// The location of offset `pos` in `src`.
pub open spec fn loc_at(src: Seq<char>, pos: int) -> Loc {
    Loc { pos: pos as usize, col: col_at(src, pos) as usize, line: line_at(src, pos) as usize }
}

/// Lines and columns never run ahead of the offset.
pub proof fn lemma_loc_bounds(src: Seq<char>, pos: int)
    requires
        0 <= pos,
    ensures
        1 <= line_at(src, pos) <= pos + 1,
        1 <= col_at(src, pos) <= pos + 1,
    decreases pos,
{
    if pos > 0 {
        lemma_loc_bounds(src, pos - 1);
    }
}

/// On one line the column grows with the offset: behind a line start and a
/// run without line breaks, the line is that of the line start and the column
/// is the length of the run plus 1.
pub proof fn lemma_col_counts_from_line_start(src: Seq<char>, start: int, pos: int)
    requires
        0 <= start <= pos,
        start == 0 || src[start - 1] == '\n',
        forall|i: int| start <= i < pos ==> #[trigger] src[i] != '\n',
    ensures
        col_at(src, pos) == pos - start + 1,
        line_at(src, pos) == line_at(src, start),
    decreases pos - start,
{
    if start < pos {
        lemma_col_counts_from_line_start(src, start, pos - 1);
    }
}

/// A line break starts the next line.
pub proof fn lemma_line_break_starts_line(src: Seq<char>, pos: int)
    requires
        0 < pos,
        src[pos - 1] == '\n',
    ensures
        col_at(src, pos) == 1,
        line_at(src, pos) == line_at(src, pos - 1) + 1,
{
}

} // verus!
