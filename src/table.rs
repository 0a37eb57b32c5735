//! The table: column count, widths and alignments inferred from the raw lines,
//! and the rendering of each line against that schema.

use vstd::prelude::*;
use crate::text::{chars_of, join, lemma_join_take, push_all, push_run, run_of, string_of, trim, trimmed};

verus! {

/// The cell delimiter.
pub const DELIMITER: char = '|';

/// The character that makes the next one literal.
pub const ESCAPE: char = '\\';

/// Index of the separator row; row 0 is the header, the rest is the body.
pub const SEPARATOR_LINE_NUM: usize = 1;

/// How the cells of a column are placed within its width.
#[derive(Clone, Copy, Debug, PartialEq, Eq, Structural)]
pub enum Alignment {
    Left,
    Right,
    Center,
}

/// State of the splitter after a prefix of a line: the closed cells, the
/// cell being read, and whether the last character was an escape.
pub type ScanState = (Seq<Seq<char>>, Seq<char>, bool);

/// The state before any character.
pub open spec fn scan_start() -> ScanState {
    (Seq::empty(), Seq::empty(), false)
}

/// One character of the splitter: an unescaped delimiter closes the current
/// cell (trimmed); an unescaped escape is dropped; anything else is content.
pub open spec fn scan_step(st: ScanState, c: char) -> ScanState {
    if c == DELIMITER && !st.2 {
        (st.0.push(trimmed(st.1)), Seq::empty(), false)
    } else if c == ESCAPE && !st.2 {
        (st.0, st.1, true)
    } else {
        (st.0, st.1.push(c), c == ESCAPE)
    }
}

/// The splitter run over `s` from `st`.
pub open spec fn scan(st: ScanState, s: Seq<char>) -> ScanState
    decreases s.len(),
{
    if s.len() == 0 {
        st
    } else {
        scan_step(scan(st, s.drop_last()), s.last())
    }
}

/// Every cell closed by a delimiter, including the one before the first
/// delimiter; what follows the last delimiter is not a cell.
pub open spec fn raw_cells(s: Seq<char>) -> Seq<Seq<char>> {
    scan(scan_start(), s).0
}

/// The `n` cells of a row: the cells after the first delimiter, cut to `n`,
/// with empty cells for the missing ones.
pub open spec fn cells_of(s: Seq<char>, n: nat) -> Seq<Seq<char>> {
    Seq::new(
        n,
        |i: int|
            if i + 1 < raw_cells(s).len() {
                raw_cells(s)[i + 1]
            } else {
                Seq::empty()
            },
    )
}

/// The cells of a row as the splitter gives them: the cells after the first
/// delimiter, all of them, padded with empty cells up to `n`.
pub open spec fn split_cells(s: Seq<char>, n: nat) -> Seq<Seq<char>> {
    let found: nat = if raw_cells(s).len() > 0 {
        (raw_cells(s).len() - 1) as nat
    } else {
        0
    };
    Seq::new(
        if found > n {
            found
        } else {
            n
        },
        |i: int|
            if i + 1 < raw_cells(s).len() {
                raw_cells(s)[i + 1]
            } else {
                Seq::empty()
            },
    )
}

/// The number of delimiter characters in `s`, escaped or not.
pub open spec fn count_delimiters(s: Seq<char>) -> nat
    decreases s.len(),
{
    if s.len() == 0 {
        0
    } else {
        count_delimiters(s.drop_last()) + if s.last() == DELIMITER {
            1nat
        } else {
            0nat
        }
    }
}

/// The column count: the cells strictly between the first and the last
/// delimiter of the separator row.
pub open spec fn column_count(lines: Seq<Seq<char>>) -> nat {
    (count_delimiters(lines[SEPARATOR_LINE_NUM as int]) - 1) as nat
}

/// The widest cell of column `c` among the first `k` lines, the separator
/// row left out.
pub open spec fn width_upto(lines: Seq<Seq<char>>, n: nat, c: int, k: int) -> nat
    decreases k,
{
    if k <= 0 {
        0
    } else {
        let w = width_upto(lines, n, c, k - 1);
        if k - 1 == SEPARATOR_LINE_NUM {
            w
        } else {
            let l = cells_of(lines[k - 1], n)[c].len();
            if l > w {
                l
            } else {
                w
            }
        }
    }
}

/// The width of column `c`: its widest cell over header and body rows.
pub open spec fn column_width(lines: Seq<Seq<char>>, c: int) -> nat {
    width_upto(lines, column_count(lines), c, lines.len() as int)
}

/// The alignment that a separator cell asks for.
pub open spec fn alignment_of(cell: Seq<char>) -> Alignment {
    let starts = cell.len() > 0 && cell[0] == ':';
    let ends = cell.len() > 0 && cell.last() == ':';
    if starts && ends {
        Alignment::Center
    } else if ends {
        Alignment::Right
    } else {
        Alignment::Left
    }
}

/// The alignment of column `c`, read from the separator row.
pub open spec fn column_alignment(lines: Seq<Seq<char>>, c: int) -> Alignment {
    alignment_of(cells_of(lines[SEPARATOR_LINE_NUM as int], column_count(lines))[c])
}

/// The views of a vector of character vectors.
pub open spec fn char_views(v: Seq<Vec<char>>) -> Seq<Seq<char>> {
    v.map_values(|x: Vec<char>| x@)
}

/// Splits `line` into cells; see `scan_step`.
fn raw_split(line: &Vec<char>) -> (r: Vec<Vec<char>>)
    ensures
        char_views(r@) == raw_cells(line@),
{
    let mut cells: Vec<Vec<char>> = Vec::new();
    let mut cur: Vec<char> = Vec::new();
    let mut escaped: bool = false;
    let mut i: usize = 0;
    while i < line.len()
        invariant
            i <= line@.len(),
            scan(scan_start(), line@.take(i as int)).0 == char_views(cells@),
            scan(scan_start(), line@.take(i as int)).1 == cur@,
            scan(scan_start(), line@.take(i as int)).2 == escaped,
        decreases line@.len() - i,
    {
        let c = line[i];
        assert(line@.take(i + 1).drop_last() =~= line@.take(i as int));
        if c == DELIMITER && !escaped {
            let t = trim(&cur);
            cells.push(t);
            assert(char_views(cells@) =~= scan(scan_start(), line@.take(i as int)).0.push(
                trimmed(cur@),
            ));
            cur = Vec::new();
        } else if c == ESCAPE && !escaped {
        } else {
            cur.push(c);
        }
        escaped = c == ESCAPE;
        i = i + 1;
    }
    assert(line@.take(line@.len() as int) =~= line@);
    cells
}

/// The first `n` cells after the leading one, padded with empty cells.
fn cells_upto(line: &Vec<char>, n: usize) -> (r: Vec<Vec<char>>)
    ensures
        r@.len() == n,
        char_views(r@) == cells_of(line@, n as nat),
{
    let raw = raw_split(line);
    let mut r: Vec<Vec<char>> = Vec::new();
    let mut k: usize = 0;
    while k < n
        invariant
            k <= n,
            char_views(raw@) == raw_cells(line@),
            char_views(r@) =~= cells_of(line@, n as nat).take(k as int),
        decreases n - k,
    {
        let mut cell: Vec<char> = Vec::new();
        if k + 1 < raw.len() {
            assert(char_views(raw@)[k + 1] == raw@[k + 1]@);
            push_all(&mut cell, &raw[k + 1]);
        }
        assert(cell@ == cells_of(line@, n as nat)[k as int]);
        let ghost before = r@;
        r.push(cell);
        assert(char_views(r@) =~= char_views(before).push(cell@));
        k = k + 1;
    }
    assert(cells_of(line@, n as nat).take(n as int) =~= cells_of(line@, n as nat));
    r
}

/// The views of a slice of string slices.
pub open spec fn str_views(lines: Seq<&str>) -> Seq<Seq<char>> {
    lines.map_values(|l: &str| l@)
}

/// A cell padded with spaces to width `w`: after it, before it, or around it
/// with the odd space on the right.
pub open spec fn padded(cell: Seq<char>, w: nat, a: Alignment) -> Seq<char> {
    let p: nat = if w > cell.len() {
        (w - cell.len()) as nat
    } else {
        0
    };
    match a {
        Alignment::Left => cell + run_of(' ', p),
        Alignment::Right => run_of(' ', p) + cell,
        Alignment::Center => run_of(' ', p / 2) + cell + run_of(' ', (p - p / 2) as nat),
    }
}

/// The separator cell of a column: `w` dashes between two markers.
pub open spec fn separator_cell(w: nat, a: Alignment) -> Seq<char> {
    match a {
        Alignment::Left => seq![':'] + run_of('-', w) + seq!['-'],
        Alignment::Right => seq!['-'] + run_of('-', w) + seq![':'],
        Alignment::Center => seq![':'] + run_of('-', w) + seq![':'],
    }
}

/// The separator cells of all columns.
pub open spec fn separator_cells(lines: Seq<Seq<char>>) -> Seq<Seq<char>> {
    Seq::new(
        column_count(lines),
        |c: int| separator_cell(column_width(lines, c), column_alignment(lines, c)),
    )
}

/// The regenerated separator row.
pub open spec fn rendered_separator(lines: Seq<Seq<char>>) -> Seq<char> {
    seq![DELIMITER] + join(separator_cells(lines), seq![DELIMITER]) + seq![DELIMITER]
}

/// The padded cells of `line` against the schema of `lines`.
pub open spec fn padded_cells(lines: Seq<Seq<char>>, line: Seq<char>) -> Seq<Seq<char>> {
    Seq::new(
        column_count(lines),
        |c: int|
            padded(
                cells_of(line, column_count(lines))[c],
                column_width(lines, c),
                column_alignment(lines, c),
            ),
    )
}

/// `line` rendered against the schema of `lines`.
pub open spec fn rendered_row(lines: Seq<Seq<char>>, line: Seq<char>) -> Seq<char> {
    seq![DELIMITER, ' '] + join(padded_cells(lines, line), seq![' ', DELIMITER, ' ']) + seq![
        ' ',
        DELIMITER,
    ]
}

/// Each line rendered: the separator regenerated, every other row padded.
pub open spec fn rendered_lines(lines: Seq<Seq<char>>) -> Seq<Seq<char>> {
    Seq::new(
        lines.len(),
        |r: int|
            if r == SEPARATOR_LINE_NUM {
                rendered_separator(lines)
            } else {
                rendered_row(lines, lines[r])
            },
    )
}

/// The whole table rendered, one line per input line, no final newline.
pub open spec fn rendered(lines: Seq<Seq<char>>) -> Seq<char> {
    join(rendered_lines(lines), seq!['\n'])
}

/// The lines that a table can be built from: a header and a separator row,
/// the separator with at least one delimiter.
pub open spec fn valid_lines(lines: Seq<Seq<char>>) -> bool {
    lines.len() > SEPARATOR_LINE_NUM && count_delimiters(lines[SEPARATOR_LINE_NUM as int]) >= 1
}

/// Width and alignment of one column.
#[derive(Clone, Copy, Debug)]
pub struct Column {
    pub width: usize,
    pub alignment: Alignment,
}

impl Default for Column {
    fn default() -> (r: Self)
        ensures
            r.width == 0,
            r.alignment == Alignment::Left,
    {
        Column { width: 0, alignment: Alignment::Left }
    }
}

/// The alignment that a separator cell asks for.
pub fn alignment_for(cell: &Vec<char>) -> (r: Alignment)
    ensures
        r == alignment_of(cell@),
{
    let n = cell.len();
    let starts = n > 0 && cell[0] == ':';
    let ends = n > 0 && cell[n - 1] == ':';
    if starts && ends {
        Alignment::Center
    } else if ends {
        Alignment::Right
    } else {
        Alignment::Left
    }
}

/// Appends `cell` padded to `width` by `alignment`.
fn push_padded(out: &mut Vec<char>, cell: &Vec<char>, width: usize, alignment: Alignment)
    ensures
        final(out)@ == old(out)@ + padded(cell@, width as nat, alignment),
{
    let padding: usize = if width > cell.len() {
        width - cell.len()
    } else {
        0
    };
    match alignment {
        Alignment::Left => {
            push_all(out, cell);
            push_run(out, ' ', padding);
        },
        Alignment::Right => {
            push_run(out, ' ', padding);
            push_all(out, cell);
        },
        Alignment::Center => {
            let half = padding / 2;
            push_run(out, ' ', half);
            push_all(out, cell);
            push_run(out, ' ', padding - half);
        },
    }
}

/// A parsed table: its raw lines and the schema inferred from them.
pub struct Table {
    content: Vec<String>,
    number_of_columns: usize,
    columns: Vec<Column>,
}

impl Table {
    /// The raw lines.
    pub closed spec fn lines(&self) -> Seq<Seq<char>> {
        self.content@.map_values(|s: String| s@)
    }

    /// The stored column count.
    pub closed spec fn stored_count(&self) -> nat {
        self.number_of_columns as nat
    }

    /// The stored columns.
    pub closed spec fn stored_columns(&self) -> Seq<Column> {
        self.columns@
    }

    /// The schema agrees with the lines: count, widths and alignments.
    pub open spec fn wf(&self) -> bool {
        &&& valid_lines(self.lines())
        &&& self.stored_count() == column_count(self.lines())
        &&& self.stored_columns().len() == self.stored_count()
        &&& forall|c: int|
            0 <= c < self.stored_count() ==> (#[trigger] self.stored_columns()[c]).width
                == column_width(self.lines(), c) && self.stored_columns()[c].alignment
                == column_alignment(self.lines(), c)
    }

    /// Builds a table from its lines: row 0 the header, row 1 the separator.
    pub fn new(lines: &[&str]) -> (t: Table)
        requires
            valid_lines(str_views(lines@)),
        ensures
            t.wf(),
            t.lines() == str_views(lines@),
    {
        let mut content: Vec<String> = Vec::new();
        let mut i: usize = 0;
        while i < lines.len()
            invariant
                i <= lines@.len(),
                content@.map_values(|s: String| s@) =~= str_views(lines@).take(i as int),
            decreases lines@.len() - i,
        {
            let ghost before = content@;
            content.push(lines[i].to_owned());
            assert(content@.map_values(|s: String| s@) =~= before.map_values(|s: String| s@).push(
                lines@[i as int]@,
            ));
            i = i + 1;
        }
        assert(str_views(lines@).take(lines@.len() as int) =~= str_views(lines@));
        let mut table = Table { content, number_of_columns: 0, columns: Vec::new() };
        table.initialize_from_lines(lines);
        table
    }

    /// Infers count, widths and alignments of `lines`, in that order; the
    /// stored lines are left as they are.
    pub fn initialize_from_lines(&mut self, lines: &[&str])
        requires
            valid_lines(str_views(lines@)),
            old(self).stored_columns().len() == 0,
        ensures
            final(self).lines() == old(self).lines(),
            final(self).stored_count() == column_count(str_views(lines@)),
            final(self).stored_columns().len() == final(self).stored_count(),
            forall|c: int|
                0 <= c < final(self).stored_count() ==> (#[trigger] final(self).stored_columns()[c]).width
                    == column_width(str_views(lines@), c) && final(self).stored_columns()[c].alignment
                    == column_alignment(str_views(lines@), c),
    {
        self.determine_number_of_columns(lines[SEPARATOR_LINE_NUM]);
        self.calculate_column_widths(lines);
        self.analyze_separator(lines[SEPARATOR_LINE_NUM]);
    }

    /// Sets the column count from the separator row's delimiters.
    pub fn determine_number_of_columns(&mut self, line: &str)
        requires
            count_delimiters(line@) >= 1,
        ensures
            final(self).stored_count() == count_delimiters(line@) - 1,
            final(self).lines() == old(self).lines(),
            final(self).stored_columns() == old(self).stored_columns(),
    {
        let chars = chars_of(line);
        let mut count: usize = 0;
        let mut i: usize = 0;
        while i < chars.len()
            invariant
                i <= chars@.len(),
                chars@ == line@,
                count == count_delimiters(chars@.take(i as int)),
                count <= i,
            decreases chars@.len() - i,
        {
            assert(chars@.take(i + 1).drop_last() =~= chars@.take(i as int));
            if chars[i] == DELIMITER {
                count = count + 1;
            }
            i = i + 1;
        }
        assert(chars@.take(chars@.len() as int) =~= chars@);
        self.number_of_columns = count - 1;
    }

    /// Sets each column's width to its widest cell over all lines but the
    /// separator row; alignments start out left.
    pub fn calculate_column_widths(&mut self, lines: &[&str])
        requires
            old(self).stored_columns().len() == 0,
        ensures
            final(self).stored_count() == old(self).stored_count(),
            final(self).lines() == old(self).lines(),
            final(self).stored_columns().len() == old(self).stored_count(),
            forall|c: int|
                0 <= c < final(self).stored_count() ==> (#[trigger] final(self).stored_columns()[c]).width == width_upto(
                    str_views(lines@),
                    old(self).stored_count(),
                    c,
                    lines@.len() as int,
                ) && final(self).stored_columns()[c].alignment == Alignment::Left,
    {
        let n = self.number_of_columns;
        let ghost views = str_views(lines@);
        while self.columns.len() < n
            invariant
                self.columns@.len() <= n,
                n == self.number_of_columns,
                self.lines() == old(self).lines(),
                forall|c: int|
                    0 <= c < self.columns@.len() ==> (#[trigger] self.columns@[c]).width == 0
                        && self.columns@[c].alignment == Alignment::Left,
            decreases n - self.columns@.len(),
        {
            self.columns.push(Column::default());
        }
        let mut r: usize = 0;
        while r < lines.len()
            invariant
                r <= lines@.len(),
                views == str_views(lines@),
                self.columns@.len() == n,
                n == self.number_of_columns,
                self.lines() == old(self).lines(),
                forall|c: int|
                    0 <= c < n ==> (#[trigger] self.columns@[c]).width == width_upto(
                        views,
                        n as nat,
                        c,
                        r as int,
                    ) && self.columns@[c].alignment == Alignment::Left,
            decreases lines@.len() - r,
        {
            if r != SEPARATOR_LINE_NUM {
                let cells = cells_upto(&chars_of(lines[r]), n);
                assert(views[r as int] == lines@[r as int]@);
                let mut c: usize = 0;
                while c < n
                    invariant
                        r < lines@.len(),
                        r != SEPARATOR_LINE_NUM,
                        c <= n,
                        views == str_views(lines@),
                        views[r as int] == lines@[r as int]@,
                        cells@.len() == n,
                        char_views(cells@) == cells_of(views[r as int], n as nat),
                        self.columns@.len() == n,
                        n == self.number_of_columns,
                        self.lines() == old(self).lines(),
                        forall|k: int|
                            0 <= k < n ==> (#[trigger] self.columns@[k]).width == width_upto(
                                views,
                                n as nat,
                                k,
                                if k < c {
                                    r + 1
                                } else {
                                    r as int
                                },
                            ) && self.columns@[k].alignment == Alignment::Left,
                    decreases n - c,
                {
                    assert(char_views(cells@)[c as int] == cells@[c as int]@);
                    let len = cells[c].len();
                    let current = self.columns[c];
                    if len > current.width {
                        self.columns.set(c, Column { width: len, alignment: current.alignment });
                    }
                    c = c + 1;
                }
            }
            r = r + 1;
        }
    }

    /// Sets each column's alignment from its cell in the separator row.
    pub fn analyze_separator(&mut self, line: &str)
        requires
            old(self).stored_columns().len() == old(self).stored_count(),
        ensures
            final(self).stored_count() == old(self).stored_count(),
            final(self).lines() == old(self).lines(),
            final(self).stored_columns().len() == old(self).stored_count(),
            forall|c: int|
                0 <= c < final(self).stored_count() ==> (#[trigger] final(self).stored_columns()[c]).width == old(self).stored_columns()[c].width && final(self).stored_columns()[c].alignment == alignment_of(
                    cells_of(line@, old(self).stored_count())[c],
                ),
    {
        let n = self.number_of_columns;
        let cells = cells_upto(&chars_of(line), n);
        let mut c: usize = 0;
        while c < n
            invariant
                c <= n,
                n == self.number_of_columns,
                n == old(self).stored_count(),
                old(self).stored_columns().len() == n,
                cells@.len() == n,
                char_views(cells@) == cells_of(line@, n as nat),
                self.columns@.len() == n,
                self.lines() == old(self).lines(),
                forall|k: int|
                    0 <= k < n ==> (#[trigger] self.columns@[k]).width == old(self).stored_columns()[k].width && (k < c ==> self.columns@[k].alignment
                        == alignment_of(cells_of(line@, n as nat)[k])),
            decreases n - c,
        {
            assert(char_views(cells@)[c as int] == cells@[c as int]@);
            let current = self.columns[c];
            let alignment = alignment_for(&cells[c]);
            self.columns.set(c, Column { width: current.width, alignment });
            c = c + 1;
        }
    }

    /// The cells of `line`, exactly as many as there are columns.
    pub fn split_line(&self, line: &str) -> (r: Vec<String>)
        ensures
            r@.len() == split_cells(line@, self.stored_count()).len(),
            forall|i: int|
                0 <= i < r@.len() ==> #[trigger] r@[i]@ == split_cells(line@, self.stored_count())[i],
    {
        let raw = raw_split(&chars_of(line));
        let n = self.number_of_columns;
        let found: usize = if raw.len() > 0 {
            raw.len() - 1
        } else {
            0
        };
        let total: usize = if found > n {
            found
        } else {
            n
        };
        let mut r: Vec<String> = Vec::new();
        let mut k: usize = 0;
        while k < total
            invariant
                k <= total,
                total == split_cells(line@, self.stored_count()).len(),
                n == self.stored_count(),
                char_views(raw@) == raw_cells(line@),
                r@.len() == k,
                forall|i: int|
                    0 <= i < k ==> #[trigger] r@[i]@ == split_cells(line@, self.stored_count())[i],
            decreases total - k,
        {
            let mut cell: Vec<char> = Vec::new();
            if k + 1 < raw.len() {
                assert(char_views(raw@)[k + 1] == raw@[k + 1]@);
                push_all(&mut cell, &raw[k + 1]);
            }
            r.push(string_of(&cell));
            k = k + 1;
        }
        r
    }

    /// The regenerated separator row, as characters.
    fn separator_chars(&self) -> (r: Vec<char>)
        requires
            self.wf(),
        ensures
            r@ == rendered_separator(self.lines()),
    {
        let n = self.number_of_columns;
        let ghost parts = separator_cells(self.lines());
        let ghost bar = seq![DELIMITER];
        let mut out: Vec<char> = Vec::new();
        out.push(DELIMITER);
        let mut c: usize = 0;
        while c < n
            invariant
                self.wf(),
                n == self.stored_count(),
                c <= n,
                parts == separator_cells(self.lines()),
                bar == seq![DELIMITER],
                out@ =~= bar + join(parts.take(c as int), bar),
            decreases n - c,
        {
            proof {
                lemma_join_take(parts, bar, c as int);
            }
            let ghost before = out@;
            if c > 0 {
                out.push(DELIMITER);
            }
            let col = self.columns[c];
            assert(self.stored_columns()[c as int] == col);
            match col.alignment {
                Alignment::Left => {
                    out.push(':');
                    push_run(&mut out, '-', col.width);
                    out.push('-');
                },
                Alignment::Right => {
                    out.push('-');
                    push_run(&mut out, '-', col.width);
                    out.push(':');
                },
                Alignment::Center => {
                    out.push(':');
                    push_run(&mut out, '-', col.width);
                    out.push(':');
                },
            }
            assert(out@ =~= before + (if c > 0 { bar } else { Seq::empty() }) + parts[c as int]);
            c = c + 1;
        }
        assert(parts.take(n as int) =~= parts);
        out.push(DELIMITER);
        out
    }

    /// `line` padded against the schema, as characters.
    fn row_chars(&self, line: &Vec<char>) -> (r: Vec<char>)
        requires
            self.wf(),
        ensures
            r@ == rendered_row(self.lines(), line@),
    {
        let n = self.number_of_columns;
        let cells = cells_upto(line, n);
        let ghost parts = padded_cells(self.lines(), line@);
        let ghost sep = seq![' ', DELIMITER, ' '];
        let mut out: Vec<char> = Vec::new();
        out.push(DELIMITER);
        out.push(' ');
        let mut c: usize = 0;
        while c < n
            invariant
                self.wf(),
                n == self.stored_count(),
                c <= n,
                cells@.len() == n,
                char_views(cells@) == cells_of(line@, n as nat),
                parts == padded_cells(self.lines(), line@),
                sep == seq![' ', DELIMITER, ' '],
                out@ =~= seq![DELIMITER, ' '] + join(parts.take(c as int), sep),
            decreases n - c,
        {
            proof {
                lemma_join_take(parts, sep, c as int);
            }
            let ghost before = out@;
            if c > 0 {
                out.push(' ');
                out.push(DELIMITER);
                out.push(' ');
            }
            let col = self.columns[c];
            assert(self.stored_columns()[c as int] == col);
            assert(char_views(cells@)[c as int] == cells@[c as int]@);
            assert(parts[c as int] == padded(cells@[c as int]@, col.width as nat, col.alignment));
            push_padded(&mut out, &cells[c], col.width, col.alignment);
            assert(out@ =~= before + (if c > 0 { sep } else { Seq::empty() }) + parts[c as int]);
            c = c + 1;
        }
        assert(parts.take(n as int) =~= parts);
        out.push(' ');
        out.push(DELIMITER);
        out
    }

    /// The regenerated separator row.
    pub fn format_separation_line(&self) -> (r: String)
        requires
            self.wf(),
        ensures
            r@ == rendered_separator(self.lines()),
    {
        string_of(&self.separator_chars())
    }

    /// `line` with each cell padded to its column's width and alignment.
    pub fn format_line(&self, line: &str) -> (r: String)
        requires
            self.wf(),
        ensures
            r@ == rendered_row(self.lines(), line@),
    {
        string_of(&self.row_chars(&chars_of(line)))
    }

    /// The whole table: the separator regenerated, every other line padded,
    /// joined by newlines.
    pub fn to_string(&self) -> (r: String)
        requires
            self.wf(),
        ensures
            r@ == rendered(self.lines()),
    {
        let ghost parts = rendered_lines(self.lines());
        let ghost nl = seq!['\n'];
        let mut out: Vec<char> = Vec::new();
        let mut r: usize = 0;
        while r < self.content.len()
            invariant
                self.wf(),
                r <= self.lines().len(),
                self.lines().len() == self.content@.len(),
                parts == rendered_lines(self.lines()),
                nl == seq!['\n'],
                out@ =~= join(parts.take(r as int), nl),
            decreases self.content@.len() - r,
        {
            proof {
                lemma_join_take(parts, nl, r as int);
            }
            let ghost before = out@;
            if r > 0 {
                out.push('\n');
            }
            let line = if r == SEPARATOR_LINE_NUM {
                self.separator_chars()
            } else {
                assert(self.lines()[r as int] == self.content@[r as int]@);
                self.row_chars(&chars_of(self.content[r].as_str()))
            };
            push_all(&mut out, &line);
            assert(out@ =~= before + (if r > 0 { nl } else { Seq::empty() }) + parts[r as int]);
            r = r + 1;
        }
        assert(parts.take(parts.len() as int) =~= parts);
        string_of(&out)
    }

    /// The number of columns.
    pub fn number_of_columns(&self) -> (r: usize)
        requires
            self.wf(),
        ensures
            r == column_count(self.lines()),
    {
        self.number_of_columns
    }

    /// Width and alignment of column `c`.
    pub fn column(&self, c: usize) -> (r: Column)
        requires
            self.wf(),
            c < column_count(self.lines()),
        ensures
            r.width == column_width(self.lines(), c as int),
            r.alignment == column_alignment(self.lines(), c as int),
    {
        let col = self.columns[c];
        assert(self.stored_columns()[c as int] == col);
        col
    }
}

} // verus!
