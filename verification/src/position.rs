//! Rows, columns and lines of a text, by character index. A row ends with a
//! newline character; the index just after it starts the next row.

use vstd::prelude::*;

verus! {

/// The row of index `idx`: the number of newlines before it.
pub open spec fn row_of(t: Seq<char>, idx: int) -> nat
    decreases idx,
{
    if idx <= 0 {
        0
    } else {
        row_of(t, idx - 1) + if t[idx - 1] == '\n' {
            1nat
        } else {
            0nat
        }
    }
}

/// The column of index `idx`: the number of characters between the last
/// newline before it, or the start of the text, and `idx`.
pub open spec fn col_of(t: Seq<char>, idx: int) -> nat
    decreases idx,
{
    if idx <= 0 {
        0
    } else if t[idx - 1] == '\n' {
        0
    } else {
        col_of(t, idx - 1) + 1
    }
}

/// The index of the first newline at or after `from`, or the end of the text
/// where there is none.
pub open spec fn line_end(t: Seq<char>, from: int) -> int
    decreases t.len() - from,
{
    if from < 0 || from >= t.len() {
        t.len() as int
    } else if t[from] == '\n' {
        from
    } else {
        line_end(t, from + 1)
    }
}

/// The first index of the line that holds `idx`.
pub open spec fn line_start(t: Seq<char>, idx: int) -> int {
    idx - col_of(t, idx)
}

/// The number of characters from `start` to the end of its line.
pub open spec fn width_from(t: Seq<char>, start: int) -> int {
    line_end(t, start) - start
}

/// The smaller of two numbers.
pub open spec fn least(a: int, b: int) -> int {
    if a < b {
        a
    } else {
        b
    }
}

/// Whether a line follows the one that holds `idx`: the line of `idx` is
/// closed by a newline. The line after a newline that ends the text is empty.
pub open spec fn has_line_below(t: Seq<char>, idx: int) -> bool {
    line_end(t, idx) < t.len()
}

/// Where the cursor goes from `idx` one line down: the same column of the
/// next line, or that line's end where it is shorter; `idx` itself where no
/// line follows.
pub open spec fn index_below(t: Seq<char>, idx: int) -> int {
    if has_line_below(t, idx) {
        let start = line_end(t, idx) + 1;
        start + least(col_of(t, idx) as int, width_from(t, start))
    } else {
        idx
    }
}

/// Where the cursor goes from `idx` one line up: the same column of the line
/// before, or that line's end where it is shorter; `idx` itself on the first
/// line.
pub open spec fn index_above(t: Seq<char>, idx: int) -> int {
    let start = line_start(t, idx);
    if start > 0 {
        let prev_end = start - 1;
        line_start(t, prev_end) + least(col_of(t, idx) as int, col_of(t, prev_end) as int)
    } else {
        idx
    }
}

/// The end of the range that deleting the line of `idx` removes: the line's
/// end, and its newline too where another line follows.
pub open spec fn line_cut_end(t: Seq<char>, idx: int) -> int {
    if has_line_below(t, idx) {
        line_end(t, idx) + 1
    } else {
        line_end(t, idx)
    }
}

/// Rows and columns never exceed the index they belong to.
pub proof fn lemma_position_bounds(t: Seq<char>, idx: int)
    requires
        0 <= idx,
    ensures
        row_of(t, idx) <= idx,
        col_of(t, idx) <= idx,
    decreases idx,
{
    if idx > 0 {
        lemma_position_bounds(t, idx - 1);
    }
}

/// The end of a line lies at or after the index it was sought from, no
/// newline stands between the two, and a newline stands at the end unless
/// it is the end of the text.
pub proof fn lemma_line_end(t: Seq<char>, from: int)
    requires
        0 <= from <= t.len(),
    ensures
        from <= line_end(t, from) <= t.len(),
        forall|k: int| from <= k < line_end(t, from) ==> t[k] != '\n',
        line_end(t, from) < t.len() ==> t[line_end(t, from)] == '\n',
    decreases t.len() - from,
{
    if from < t.len() && t[from] != '\n' {
        lemma_line_end(t, from + 1);
    }
}

/// Across a stretch without a newline the row stays and the column grows by
/// the distance.
pub proof fn lemma_same_line(t: Seq<char>, a: int, b: int)
    requires
        0 <= a <= b <= t.len(),
        forall|k: int| a <= k < b ==> t[k] != '\n',
    ensures
        row_of(t, b) == row_of(t, a),
        col_of(t, b) == col_of(t, a) + (b - a),
    decreases b - a,
{
    if a < b {
        lemma_same_line(t, a, b - 1);
    }
}

/// The start of the line of `idx` is in the same row at column 0, follows a
/// newline unless it is the start of the text, and no newline stands between
/// it and `idx`.
pub proof fn lemma_line_start(t: Seq<char>, idx: int)
    requires
        0 <= idx <= t.len(),
    ensures
        0 <= line_start(t, idx) <= idx,
        col_of(t, line_start(t, idx)) == 0,
        row_of(t, line_start(t, idx)) == row_of(t, idx),
        line_start(t, idx) > 0 ==> t[line_start(t, idx) - 1] == '\n',
        line_start(t, idx) == 0 <==> row_of(t, idx) == 0,
        forall|k: int| line_start(t, idx) <= k < idx ==> t[k] != '\n',
    decreases idx,
{
    if idx > 0 && t[idx - 1] != '\n' {
        lemma_line_start(t, idx - 1);
    }
}

/// Vertical motion keeps the column, or takes the end of the destination
/// line where that line is shorter: one line down lands in the next row, one
/// line up in the row before.
pub proof fn lemma_vertical_motion(t: Seq<char>, idx: int)
    requires
        0 <= idx <= t.len(),
    ensures
        0 <= index_below(t, idx) <= t.len(),
        0 <= index_above(t, idx) <= t.len(),
        has_line_below(t, idx) ==> {
            &&& row_of(t, index_below(t, idx)) == row_of(t, idx) + 1
            &&& col_of(t, index_below(t, idx)) == least(
                col_of(t, idx) as int,
                width_from(t, line_end(t, idx) + 1),
            )
        },
        row_of(t, idx) > 0 ==> {
            &&& row_of(t, index_above(t, idx)) == row_of(t, idx) - 1
            &&& col_of(t, index_above(t, idx)) == least(
                col_of(t, idx) as int,
                col_of(t, line_start(t, idx) - 1) as int,
            )
        },
        row_of(t, idx) == 0 ==> index_above(t, idx) == idx,
{
    lemma_line_end(t, idx);
    lemma_line_start(t, idx);
    lemma_position_bounds(t, idx);
    if has_line_below(t, idx) {
        let e = line_end(t, idx);
        let start = e + 1;
        lemma_same_line(t, idx, e);
        lemma_line_end(t, start);
        let d = index_below(t, idx);
        lemma_same_line(t, start, d);
    }
    if row_of(t, idx) > 0 {
        let s = line_start(t, idx);
        let p = s - 1;
        lemma_line_start(t, p);
        lemma_position_bounds(t, p);
        let u = index_above(t, idx);
        lemma_same_line(t, line_start(t, p), u);
    }
}

/// The row and the column of index `idx`; an index beyond the end is taken as
/// the end.
pub fn position_at(chars: &Vec<char>, idx: usize) -> (pos: (usize, usize))
    ensures
        pos.0 == row_of(chars@, least(idx as int, chars@.len() as int)),
        pos.1 == col_of(chars@, least(idx as int, chars@.len() as int)),
{
    let stop: usize = if idx < chars.len() {
        idx
    } else {
        chars.len()
    };
    let mut row: usize = 0;
    let mut col: usize = 0;
    let mut k: usize = 0;
    while k < stop
        invariant
            k <= stop <= chars.len(),
            row <= k,
            col <= k,
            row == row_of(chars@, k as int),
            col == col_of(chars@, k as int),
        decreases stop - k,
    {
        if chars[k] == '\n' {
            row += 1;
            col = 0;
        } else {
            col += 1;
        }
        k += 1;
    }
    (row, col)
}

/// The index of the first newline at or after `from`, or the length of the
/// text.
pub fn line_end_from(chars: &Vec<char>, from: usize) -> (end: usize)
    requires
        from <= chars.len(),
    ensures
        end == line_end(chars@, from as int),
        from <= end <= chars.len(),
{
    let mut k: usize = from;
    while k < chars.len() && chars[k] != '\n'
        invariant
            from <= k <= chars.len(),
            line_end(chars@, k as int) == line_end(chars@, from as int),
        decreases chars.len() - k,
    {
        k += 1;
    }
    k
}

} // verus!
