//! Re-reading rendered output: a rendered table, split and rendered again,
//! gives the same lines.

use vstd::prelude::*;
use crate::table::{
    cells_of, split_cells, column_alignment, column_count, column_width, count_delimiters,
    padded, padded_cells, raw_cells, rendered, rendered_lines, rendered_row, rendered_separator,
    scan, scan_start, scan_step, separator_cells, valid_lines, width_upto,
    Alignment, ScanState, DELIMITER, ESCAPE, SEPARATOR_LINE_NUM,
};
use crate::text::{is_ws, join, lemma_join_take, run_of, trim_end, trim_start, trimmed};
use crate::laws::lemma_separator_cell_alignment;

verus! {

/// Holds neither a delimiter nor an escape character.
pub open spec fn plain(s: Seq<char>) -> bool {
    forall|i: int| 0 <= i < s.len() ==> s[i] != DELIMITER && s[i] != ESCAPE
}

/// Starts and ends with a character other than whitespace, or is empty.
pub open spec fn edge_clean(t: Seq<char>) -> bool {
    t.len() == 0 || (!is_ws(t[0]) && !is_ws(t.last()))
}

/// A delimiter, then each chunk followed by a delimiter.
pub open spec fn framed(q: Seq<Seq<char>>) -> Seq<char>
    decreases q.len(),
{
    if q.len() == 0 {
        seq![DELIMITER]
    } else {
        framed(q.drop_last()) + q.last() + seq![DELIMITER]
    }
}

/// Every cell of every header and body row is plain.
pub open spec fn plain_cells(lines: Seq<Seq<char>>) -> bool {
    forall|r: int, c: int|
        0 <= r < lines.len() && r != SEPARATOR_LINE_NUM && 0 <= c < column_count(lines)
            ==> plain(#[trigger] cells_of(lines[r], column_count(lines))[c])
}

proof fn lemma_scan_one(st: ScanState, c: char)
    ensures
        scan(st, seq![c]) == scan_step(st, c),
{
    assert(seq![c].drop_last() =~= Seq::<char>::empty());
    assert(scan(st, Seq::<char>::empty()) == st);
}

proof fn lemma_scan_concat(st: ScanState, a: Seq<char>, b: Seq<char>)
    ensures
        scan(st, a + b) == scan(scan(st, a), b),
    decreases b.len(),
{
    if b.len() == 0 {
        assert(a + b =~= a);
    } else {
        assert((a + b).drop_last() =~= a + b.drop_last());
        assert((a + b).last() == b.last());
        lemma_scan_concat(st, a, b.drop_last());
    }
}

proof fn lemma_scan_plain(st: ScanState, x: Seq<char>)
    requires
        !st.2,
        plain(x),
    ensures
        scan(st, x) == (st.0, st.1 + x, false),
    decreases x.len(),
{
    if x.len() == 0 {
        assert(st.1 + x =~= st.1);
    } else {
        lemma_scan_plain(st, x.drop_last());
        assert(x[x.len() - 1] == x.last());
        assert((st.1 + x.drop_last()).push(x.last()) =~= st.1 + x);
    }
}

proof fn lemma_scan_framed(q: Seq<Seq<char>>)
    requires
        forall|i: int| 0 <= i < q.len() ==> plain(#[trigger] q[i]),
    ensures
        scan(scan_start(), framed(q)) == (
            seq![Seq::<char>::empty()] + q.map_values(|x: Seq<char>| trimmed(x)),
            Seq::<char>::empty(),
            false,
        ),
    decreases q.len(),
{
    let bar = seq![DELIMITER];
    if q.len() == 0 {
        lemma_scan_one(scan_start(), DELIMITER);
        assert(trim_start(Seq::<char>::empty()) == Seq::<char>::empty());
        assert(trimmed(Seq::<char>::empty()) == Seq::<char>::empty());
        assert(seq![Seq::<char>::empty()] + q.map_values(|x: Seq<char>| trimmed(x)) =~= seq![
            Seq::<char>::empty(),
        ]);
    } else {
        let p = q.drop_last();
        lemma_scan_framed(p);
        let before = scan(scan_start(), framed(p));
        lemma_scan_concat(scan_start(), framed(p), q.last());
        lemma_scan_concat(scan_start(), framed(p) + q.last(), bar);
        assert(plain(q[q.len() - 1]));
        lemma_scan_plain(before, q.last());
        assert(Seq::<char>::empty() + q.last() =~= q.last());
        let mid = scan(before, q.last());
        lemma_scan_one(mid, DELIMITER);
        assert(before.0.push(trimmed(q.last())) =~= seq![Seq::<char>::empty()] + q.map_values(
            |x: Seq<char>| trimmed(x),
        ));
    }
}

proof fn lemma_count_concat(a: Seq<char>, b: Seq<char>)
    ensures
        count_delimiters(a + b) == count_delimiters(a) + count_delimiters(b),
    decreases b.len(),
{
    if b.len() == 0 {
        assert(a + b =~= a);
    } else {
        assert((a + b).drop_last() =~= a + b.drop_last());
        lemma_count_concat(a, b.drop_last());
    }
}

proof fn lemma_count_plain(x: Seq<char>)
    requires
        plain(x),
    ensures
        count_delimiters(x) == 0,
    decreases x.len(),
{
    if x.len() > 0 {
        assert(x.last() == x[x.len() - 1]);
        lemma_count_plain(x.drop_last());
    }
}

proof fn lemma_count_framed(q: Seq<Seq<char>>)
    requires
        forall|i: int| 0 <= i < q.len() ==> plain(#[trigger] q[i]),
    ensures
        count_delimiters(framed(q)) == q.len() + 1,
    decreases q.len(),
{
    let bar = seq![DELIMITER];
    assert(bar.drop_last() =~= Seq::<char>::empty());
    assert(count_delimiters(Seq::<char>::empty()) == 0);
    assert(count_delimiters(bar) == 1);
    if q.len() > 0 {
        let p = q.drop_last();
        lemma_count_framed(p);
        assert(plain(q[q.len() - 1]));
        lemma_count_plain(q.last());
        lemma_count_concat(framed(p), q.last());
        lemma_count_concat(framed(p) + q.last(), bar);
    }
}

proof fn lemma_trim_start_spaces(a: nat, y: Seq<char>)
    ensures
        trim_start(run_of(' ', a) + y) == trim_start(y),
    decreases a,
{
    if a > 0 {
        assert((run_of(' ', a) + y)[0] == ' ');
        assert((run_of(' ', a) + y).drop_first() =~= run_of(' ', (a - 1) as nat) + y);
        lemma_trim_start_spaces((a - 1) as nat, y);
    } else {
        assert(run_of(' ', a) + y =~= y);
    }
}

proof fn lemma_trim_end_spaces(y: Seq<char>, b: nat)
    ensures
        trim_end(y + run_of(' ', b)) == trim_end(y),
    decreases b,
{
    if b > 0 {
        assert((y + run_of(' ', b)).last() == ' ');
        assert((y + run_of(' ', b)).drop_last() =~= y + run_of(' ', (b - 1) as nat));
        lemma_trim_end_spaces(y, (b - 1) as nat);
    } else {
        assert(y + run_of(' ', b) =~= y);
    }
}

/// Trimming spaces added on both sides of a clean cell gives the cell back.
proof fn lemma_trim_framed_spaces(a: nat, t: Seq<char>, b: nat)
    requires
        edge_clean(t),
    ensures
        trimmed(run_of(' ', a) + t + run_of(' ', b)) == t,
{
    assert(run_of(' ', a) + t + run_of(' ', b) =~= run_of(' ', a) + (t + run_of(' ', b)));
    lemma_trim_start_spaces(a, t + run_of(' ', b));
    if t.len() > 0 {
        assert((t + run_of(' ', b))[0] == t[0]);
        assert(trim_start(t + run_of(' ', b)) == t + run_of(' ', b));
        lemma_trim_end_spaces(t, b);
        assert(t.last() == t[t.len() - 1]);
    } else {
        assert(t + run_of(' ', b) =~= run_of(' ', b) + t);
        lemma_trim_start_spaces(b, t);
    }
}

proof fn lemma_trim_start_clean(x: Seq<char>)
    ensures
        trim_start(x).len() > 0 ==> !is_ws(trim_start(x)[0]),
    decreases x.len(),
{
    if x.len() > 0 && is_ws(x[0]) {
        lemma_trim_start_clean(x.drop_first());
    }
}

proof fn lemma_trim_end_clean(y: Seq<char>)
    requires
        y.len() == 0 || !is_ws(y[0]),
    ensures
        trim_end(y).len() > 0 ==> !is_ws(trim_end(y).last()) && trim_end(y)[0] == y[0],
    decreases y.len(),
{
    if y.len() > 0 && is_ws(y.last()) {
        let z = y.drop_last();
        if z.len() > 0 {
            assert(z[0] == y[0]);
        }
        lemma_trim_end_clean(z);
    }
}

/// A trimmed sequence has no whitespace at either end.
proof fn lemma_trimmed_clean(x: Seq<char>)
    ensures
        edge_clean(trimmed(x)),
{
    lemma_trim_start_clean(x);
    lemma_trim_end_clean(trim_start(x));
}

/// Every cell that the splitter closes is trimmed.
proof fn lemma_scan_clean(s: Seq<char>)
    ensures
        forall|i: int|
            0 <= i < scan(scan_start(), s).0.len() ==> edge_clean(
                #[trigger] scan(scan_start(), s).0[i],
            ),
    decreases s.len(),
{
    if s.len() > 0 {
        lemma_scan_clean(s.drop_last());
        lemma_trimmed_clean(scan(scan_start(), s.drop_last()).1);
    }
}

/// The cells of a row have no whitespace at either end.
proof fn lemma_cells_clean(s: Seq<char>, n: nat, c: int)
    requires
        0 <= c < n,
    ensures
        edge_clean(cells_of(s, n)[c]),
{
    lemma_scan_clean(s);
    if c + 1 < raw_cells(s).len() {
        assert(edge_clean(scan(scan_start(), s).0[c + 1]));
    }
}

/// A row built from pieces is a framed sequence of those pieces with `pre`
/// before and `post` after each.
proof fn lemma_join_framed(x: Seq<Seq<char>>, pre: Seq<char>, post: Seq<char>, k: int)
    requires
        1 <= k <= x.len(),
    ensures
        seq![DELIMITER] + pre + join(x.take(k), post + seq![DELIMITER] + pre) + post + seq![
            DELIMITER,
        ] == framed(Seq::new(k as nat, |c: int| pre + x[c] + post)),
    decreases k,
{
    let mid = post + seq![DELIMITER] + pre;
    let q = Seq::new(k as nat, |c: int| pre + x[c] + post);
    assert(q.drop_last() =~= Seq::new((k - 1) as nat, |c: int| pre + x[c] + post));
    lemma_join_take(x, mid, k - 1);
    assert(q.last() == pre + x[k - 1] + post);
    if k == 1 {
        assert(q.drop_last() =~= Seq::<Seq<char>>::empty());
        assert(framed(q.drop_last()) == seq![DELIMITER]);
        assert(seq![DELIMITER] + pre + x[0] + post + seq![DELIMITER] =~= seq![DELIMITER] + q.last()
            + seq![DELIMITER]);
    } else {
        lemma_join_framed(x, pre, post, k - 1);
        let j = join(x.take(k - 1), mid);
        assert(seq![DELIMITER] + pre + (j + mid + x[k - 1]) + post + seq![DELIMITER] =~= (
        seq![DELIMITER] + pre + j + post + seq![DELIMITER]) + q.last() + seq![DELIMITER]);
    }
}

proof fn lemma_plain_concat(a: Seq<char>, b: Seq<char>)
    requires
        plain(a),
        plain(b),
    ensures
        plain(a + b),
{
    assert forall|i: int| 0 <= i < (a + b).len() implies (a + b)[i] != DELIMITER && (a + b)[i]
        != ESCAPE by {
        if i >= a.len() {
            assert((a + b)[i] == b[i - a.len()]);
        }
    }
}

/// A padded cell between its two spaces is plain and trims back to the cell.
proof fn lemma_padded_piece(cell: Seq<char>, w: nat, a: Alignment)
    requires
        edge_clean(cell),
        plain(cell),
    ensures
        plain(seq![' '] + padded(cell, w, a) + seq![' ']),
        trimmed(seq![' '] + padded(cell, w, a) + seq![' ']) == cell,
{
    let p: nat = if w > cell.len() {
        (w - cell.len()) as nat
    } else {
        0
    };
    let q = seq![' '] + padded(cell, w, a) + seq![' '];
    let (x, y) = match a {
        Alignment::Left => (1nat, p + 1),
        Alignment::Right => (p + 1, 1nat),
        Alignment::Center => (p / 2 + 1, (p - p / 2 + 1) as nat),
    };
    assert(q =~= run_of(' ', x) + cell + run_of(' ', y));
    assert(plain(run_of(' ', x)));
    assert(plain(run_of(' ', y)));
    lemma_plain_concat(run_of(' ', x), cell);
    lemma_plain_concat(run_of(' ', x) + cell, run_of(' ', y));
    lemma_trim_framed_spaces(x, cell, y);
}

/// A rendered row splits back into the cells it was made from.
proof fn lemma_row_reparse(lines: Seq<Seq<char>>, line: Seq<char>)
    requires
        column_count(lines) >= 1,
        forall|c: int|
            0 <= c < column_count(lines) ==> plain(#[trigger] cells_of(line, column_count(lines))[c]),
    ensures
        cells_of(rendered_row(lines, line), column_count(lines)) == cells_of(
            line,
            column_count(lines),
        ),
        raw_cells(rendered_row(lines, line)).len() == column_count(lines) + 1,
        count_delimiters(rendered_row(lines, line)) == column_count(lines) + 1,
{
    let n = column_count(lines);
    let cells = cells_of(line, n);
    let pc = padded_cells(lines, line);
    let sp = seq![' '];
    let bar = seq![DELIMITER];
    let q = Seq::new(n, |c: int| sp + pc[c] + sp);
    lemma_join_framed(pc, sp, sp, n as int);
    assert(pc.take(n as int) =~= pc);
    assert(sp + bar + sp =~= seq![' ', DELIMITER, ' ']);
    let j = join(pc, seq![' ', DELIMITER, ' ']);
    assert(rendered_row(lines, line) =~= bar + sp + j + sp + bar);
    assert(rendered_row(lines, line) == framed(q));
    assert forall|c: int| 0 <= c < q.len() implies plain(#[trigger] q[c]) && trimmed(q[c])
        == cells[c] by {
        lemma_cells_clean(line, n, c);
        assert(plain(cells_of(line, n)[c]));
        lemma_padded_piece(cells[c], column_width(lines, c), column_alignment(lines, c));
    }
    lemma_scan_framed(q);
    lemma_count_framed(q);
    let raw = seq![Seq::<char>::empty()] + q.map_values(|x: Seq<char>| trimmed(x));
    assert(raw_cells(framed(q)) == raw);
    assert forall|c: int| 0 <= c < n implies #[trigger] cells_of(framed(q), n)[c] == cells[c] by {
        assert(raw[c + 1] == trimmed(q[c]));
    }
    assert(cells_of(framed(q), n) =~= cells);
}

/// Column count: a rendered row holds exactly as many cells as the table
/// has columns, one delimiter before each and one after the last, however
/// many cells the raw row held. This holds where the row's cells hold no
/// delimiter or escape character.
pub proof fn lemma_rendered_row_columns(lines: Seq<Seq<char>>, line: Seq<char>)
    requires
        column_count(lines) >= 1,
        forall|c: int|
            0 <= c < column_count(lines) ==> plain(#[trigger] cells_of(line, column_count(lines))[c]),
    ensures
        count_delimiters(rendered_row(lines, line)) == column_count(lines) + 1,
        raw_cells(rendered_row(lines, line)).len() == column_count(lines) + 1,
        cells_of(rendered_row(lines, line), column_count(lines)) == cells_of(
            line,
            column_count(lines),
        ),
{
    lemma_row_reparse(lines, line);
}

/// Separator shape: the regenerated separator row has one delimiter more
/// than there are columns, each of its cells is made of `:` and `-` alone,
/// and it splits back into those cells.
pub proof fn lemma_separator_reparse(lines: Seq<Seq<char>>)
    requires
        valid_lines(lines),
        column_count(lines) >= 1,
    ensures
        count_delimiters(rendered_separator(lines)) == column_count(lines) + 1,
        cells_of(rendered_separator(lines), column_count(lines)) == separator_cells(lines),
        forall|c: int, i: int|
            0 <= c < column_count(lines) && 0 <= i < separator_cells(lines)[c].len() ==> (
            #[trigger] separator_cells(lines)[c][i] == ':' || separator_cells(lines)[c][i] == '-'),
{
    let n = column_count(lines);
    let sc = separator_cells(lines);
    let e = Seq::<char>::empty();
    let bar = seq![DELIMITER];
    lemma_join_framed(sc, e, e, n as int);
    assert(sc.take(n as int) =~= sc);
    assert(e + bar + e =~= bar);
    assert(Seq::new(n, |c: int| e + sc[c] + e) =~= sc);
    assert(rendered_separator(lines) =~= bar + e + join(sc, e + bar + e) + e + bar);
    assert(rendered_separator(lines) == framed(sc));
    assert forall|c: int| 0 <= c < sc.len() implies plain(#[trigger] sc[c]) && trimmed(sc[c])
        == sc[c] by {
        let t = sc[c];
        assert(forall|i: int| 0 <= i < t.len() ==> t[i] == ':' || t[i] == '-');
        assert(t[0] == ':' || t[0] == '-');
        assert(t.last() == t[t.len() - 1]);
        assert(run_of(' ', 0) + t + run_of(' ', 0) =~= t);
        lemma_trim_framed_spaces(0, t, 0);
    }
    lemma_count_framed(sc);
    lemma_scan_framed(sc);
    let raw = seq![e] + sc.map_values(|x: Seq<char>| trimmed(x));
    assert(raw_cells(framed(sc)) == raw);
    assert forall|c: int| 0 <= c < n implies #[trigger] cells_of(framed(sc), n)[c] == sc[c] by {
        assert(raw[c + 1] == trimmed(sc[c]));
    }
    assert(cells_of(framed(sc), n) =~= sc);
}

proof fn lemma_width_same(a: Seq<Seq<char>>, b: Seq<Seq<char>>, n: nat, c: int, k: int)
    requires
        a.len() == b.len(),
        0 <= k <= a.len(),
        forall|r: int|
            0 <= r < a.len() && r != SEPARATOR_LINE_NUM ==> #[trigger] cells_of(a[r], n)
                == cells_of(b[r], n),
    ensures
        width_upto(a, n, c, k) == width_upto(b, n, c, k),
    decreases k,
{
    if k > 0 {
        lemma_width_same(a, b, n, c, k - 1);
        if k - 1 != SEPARATOR_LINE_NUM {
            assert(cells_of(a[k - 1], n) == cells_of(b[k - 1], n));
        }
    }
}

/// Formatting is a fixed point: rendering the rendered lines again gives the
/// same lines and the same text. This holds where the table has a column
/// and no cell holds a delimiter or an escape character, which rendering
/// would write out unescaped.
pub proof fn lemma_render_fixed_point(lines: Seq<Seq<char>>)
    requires
        valid_lines(lines),
        column_count(lines) >= 1,
        plain_cells(lines),
    ensures
        valid_lines(rendered_lines(lines)),
        rendered_lines(rendered_lines(lines)) == rendered_lines(lines),
        rendered(rendered_lines(lines)) == rendered(lines),
{
    let n = column_count(lines);
    let out = rendered_lines(lines);
    lemma_separator_reparse(lines);
    assert(out[SEPARATOR_LINE_NUM as int] == rendered_separator(lines));
    assert(column_count(out) == n);
    assert forall|r: int| 0 <= r < lines.len() && r != SEPARATOR_LINE_NUM implies #[trigger] cells_of(
        lines[r],
        n,
    ) == cells_of(out[r], n) by {
        assert forall|c: int| 0 <= c < n implies plain(#[trigger] cells_of(lines[r], n)[c]) by {
            assert(plain(cells_of(lines[r], column_count(lines))[c]));
        }
        lemma_row_reparse(lines, lines[r]);
    }
    assert forall|c: int| 0 <= c < n implies column_width(out, c) == column_width(lines, c)
        && column_alignment(out, c) == column_alignment(lines, c) by {
        lemma_width_same(lines, out, n, c, lines.len() as int);
        lemma_separator_cell_alignment(column_width(lines, c), column_alignment(lines, c));
        assert(cells_of(out[SEPARATOR_LINE_NUM as int], n)[c] == separator_cells(lines)[c]);
    }
    assert(separator_cells(out) =~= separator_cells(lines));
    assert forall|r: int| 0 <= r < out.len() implies #[trigger] rendered_lines(out)[r] == out[r] by {
        if r != SEPARATOR_LINE_NUM {
            assert(cells_of(lines[r], n) == cells_of(out[r], n));
            assert(padded_cells(out, out[r]) =~= padded_cells(lines, lines[r]));
        }
    }
    assert(rendered_lines(out) =~= out);
}

/// Column count of the output: every rendered line, the separator included,
/// holds one delimiter more than there are columns, that is one cell per
/// column, however many cells its input line held. This holds where the
/// table has a column and no cell holds a delimiter or an escape character.
pub proof fn lemma_rendered_lines_columns(lines: Seq<Seq<char>>)
    requires
        valid_lines(lines),
        column_count(lines) >= 1,
        plain_cells(lines),
    ensures
        forall|r: int|
            0 <= r < lines.len() ==> count_delimiters(#[trigger] rendered_lines(lines)[r])
                == column_count(lines) + 1,
{
    let n = column_count(lines);
    lemma_separator_reparse(lines);
    assert forall|r: int| 0 <= r < lines.len() implies count_delimiters(
        #[trigger] rendered_lines(lines)[r],
    ) == n + 1 by {
        if r != SEPARATOR_LINE_NUM {
            assert forall|c: int| 0 <= c < n implies plain(
                #[trigger] cells_of(lines[r], n)[c],
            ) by {
                assert(plain(cells_of(lines[r], column_count(lines))[c]));
            }
            lemma_row_reparse(lines, lines[r]);
        }
    }
}

/// Escaped delimiter in a row: in `|a\|b|` the escaped `|` closes no cell;
/// the row has the one cell `a|b` (trimmed), the escape character dropped.
pub proof fn lemma_escaped_pipe_cell(a: Seq<char>, b: Seq<char>, n: nat)
    requires
        plain(a),
        plain(b),
    ensures
        raw_cells(seq![DELIMITER] + a + seq![ESCAPE, DELIMITER] + b + seq![DELIMITER]).len() == 2,
        split_cells(seq![DELIMITER] + a + seq![ESCAPE, DELIMITER] + b + seq![DELIMITER], n)[0]
            == trimmed(a + seq![DELIMITER] + b),
{
    let bar = seq![DELIMITER];
    let esc = seq![ESCAPE, DELIMITER];
    let e = Seq::<char>::empty();
    let s0 = scan_step(scan_start(), DELIMITER);
    lemma_scan_one(scan_start(), DELIMITER);
    assert(s0 == (seq![trimmed(e)], e, false));
    lemma_scan_concat(scan_start(), bar, a);
    lemma_scan_plain(s0, a);
    assert(e + a =~= a);
    let s1 = (seq![trimmed(e)], a, false);
    lemma_scan_concat(scan_start(), bar + a, esc);
    assert(esc.drop_last() =~= seq![ESCAPE]);
    lemma_scan_one(s1, ESCAPE);
    assert(scan(s1, esc) == scan_step(scan(s1, seq![ESCAPE]), DELIMITER));
    let s2 = (seq![trimmed(e)], a.push(DELIMITER), false);
    assert(scan(s1, esc) == s2);
    lemma_scan_concat(scan_start(), bar + a + esc, b);
    lemma_scan_plain(s2, b);
    assert(a.push(DELIMITER) + b =~= a + bar + b);
    let s3 = (seq![trimmed(e)], a + bar + b, false);
    lemma_scan_concat(scan_start(), bar + a + esc + b, bar);
    lemma_scan_one(s3, DELIMITER);
    let row = bar + a + esc + b + bar;
    assert(scan(scan_start(), row).0 == seq![trimmed(e)].push(trimmed(a + bar + b)));
    assert(raw_cells(row)[1] == trimmed(a + bar + b));
}

} // verus!
