//! Properties of the table model that relate its parts.

use vstd::prelude::*;
use crate::table::{
    alignment_of, cells_of, column_alignment, column_count, column_width, padded,
    padded_cells, scan, scan_start, scan_step, separator_cell, width_upto, Alignment, DELIMITER, ESCAPE,
    SEPARATOR_LINE_NUM,
};
use crate::text::run_of;

verus! {

/// The width reached after `k` lines is at least every cell seen in them.
proof fn lemma_width_upto_bounds(lines: Seq<Seq<char>>, n: nat, c: int, k: int, r: int)
    requires
        0 <= r < k <= lines.len(),
        r != SEPARATOR_LINE_NUM,
    ensures
        cells_of(lines[r], n)[c].len() <= width_upto(lines, n, c, k),
    decreases k,
{
    if r < k - 1 {
        lemma_width_upto_bounds(lines, n, c, k - 1, r);
    }
}

/// A padded cell is as long as the column, when the column is wide enough.
pub proof fn lemma_padded_len(cell: Seq<char>, w: nat, a: Alignment)
    requires
        cell.len() <= w,
    ensures
        padded(cell, w, a).len() == w,
{
}

/// Column width: every header or body cell fits within its column, a
/// rendered cell is exactly the column's width (between the one space on
/// each side that the row adds), and a separator cell is the width plus its
/// two markers.
pub proof fn lemma_width(lines: Seq<Seq<char>>, r: int, c: int)
    requires
        0 <= r < lines.len(),
        r != SEPARATOR_LINE_NUM,
        0 <= c < column_count(lines),
    ensures
        cells_of(lines[r], column_count(lines))[c].len() <= column_width(lines, c),
        padded_cells(lines, lines[r])[c].len() == column_width(lines, c),
        separator_cell(column_width(lines, c), column_alignment(lines, c)).len() == column_width(
            lines,
            c,
        ) + 2,
{
    lemma_width_upto_bounds(lines, column_count(lines), c, lines.len() as int, r);
    lemma_padded_len(
        cells_of(lines[r], column_count(lines))[c],
        column_width(lines, c),
        column_alignment(lines, c),
    );
}

/// Column count: every row has exactly as many cells as the separator row
/// gives columns, however many it holds itself.
pub proof fn lemma_column_count(lines: Seq<Seq<char>>, line: Seq<char>)
    ensures
        cells_of(line, column_count(lines)).len() == column_count(lines),
        padded_cells(lines, line).len() == column_count(lines),
{
}

/// Alignment markers: `:---` is left, `---:` right, `:---:` center, and a
/// bare `---` left.
pub proof fn lemma_alignment_markers(k: nat)
    requires
        k >= 1,
    ensures
        alignment_of(seq![':'] + run_of('-', k)) == Alignment::Left,
        alignment_of(run_of('-', k) + seq![':']) == Alignment::Right,
        alignment_of(seq![':'] + run_of('-', k) + seq![':']) == Alignment::Center,
        alignment_of(run_of('-', k)) == Alignment::Left,
{
    assert((seq![':'] + run_of('-', k))[0] == ':');
    assert((seq![':'] + run_of('-', k)).last() == '-');
    assert((run_of('-', k) + seq![':'])[0] == '-');
    assert((seq![':'] + run_of('-', k) + seq![':'])[0] == ':');
}

/// A regenerated separator cell reads back as the alignment it was made from.
pub proof fn lemma_separator_cell_alignment(w: nat, a: Alignment)
    ensures
        alignment_of(separator_cell(w, a)) == a,
{
    let s = separator_cell(w, a);
    assert(s[0] == if a == Alignment::Right { '-' } else { ':' });
    assert(s.last() == if a == Alignment::Left { '-' } else { ':' });
}

/// Escaped delimiter: `\|` adds a literal `|` to the cell being read and
/// closes no cell.
pub proof fn lemma_escaped_delimiter(s: Seq<char>)
    requires
        !scan(scan_start(), s).2,
    ensures
        scan(scan_start(), s + seq![ESCAPE, DELIMITER]) == (
            scan(scan_start(), s).0,
            scan(scan_start(), s).1.push(DELIMITER),
            false,
        ),
{
    let t = s + seq![ESCAPE, DELIMITER];
    assert(t.drop_last() =~= s + seq![ESCAPE]);
    assert((s + seq![ESCAPE]).drop_last() =~= s);
    assert(t.last() == DELIMITER);
    assert((s + seq![ESCAPE]).last() == ESCAPE);
    let mid = scan(scan_start(), s + seq![ESCAPE]);
    assert(mid == scan_step(scan(scan_start(), s), ESCAPE));
    assert(scan(scan_start(), t) == scan_step(mid, DELIMITER));
}

} // verus!
