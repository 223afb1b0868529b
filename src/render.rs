//! A result set as a bordered text table.

use crate::text::{format_count, nat_digits, string_from_chars};
use crate::types::{rows_view, value_text, ColumnView, ResultSet, ValueView};
use vstd::prelude::*;

verus! {

/// The length in bytes of a text's UTF-8 form, as `str::len` reports it.
pub open spec fn byte_width(s: Seq<char>) -> int {
    (vstd::utf8::encode_utf8(s).len() as usize) as int
}

/// The widest of `w` and the shown values at position `i` of the rows.
pub open spec fn width_over(rows: Seq<Seq<ValueView>>, i: int, w: int) -> int
    decreases rows.len(),
{
    if rows.len() == 0 {
        w
    } else {
        let w0 = width_over(rows.drop_last(), i, w);
        let r = rows.last();
        if 0 <= i < r.len() && byte_width(value_text(r[i])) > w0 {
            byte_width(value_text(r[i]))
        } else {
            w0
        }
    }
}

/// The width of a column of the result table: the widest of its header and its values.
pub open spec fn column_width(cols: Seq<ColumnView>, rows: Seq<Seq<ValueView>>, i: int) -> int {
    width_over(rows, i, byte_width(cols[i].name))
}

/// A text followed by spaces up to `w` characters.
pub open spec fn pad(s: Seq<char>, w: int) -> Seq<char> {
    if s.len() < w {
        s + Seq::new((w - s.len()) as nat, |_i: int| ' ')
    } else {
        s
    }
}

/// `| text ` with the text padded to the width.
pub open spec fn cell(s: Seq<char>, w: int) -> Seq<char> {
    seq!['|', ' '] + pad(s, w) + seq![' ']
}

/// The header cells of the first `k` columns.
pub open spec fn header_cells(cols: Seq<ColumnView>, rows: Seq<Seq<ValueView>>, k: int) -> Seq<char>
    decreases k,
{
    if k <= 0 {
        Seq::empty()
    } else {
        header_cells(cols, rows, k - 1) + cell(cols[k - 1].name, column_width(cols, rows, k - 1))
    }
}

/// The separator pieces of the first `k` columns.
pub open spec fn separator_cells(cols: Seq<ColumnView>, rows: Seq<Seq<ValueView>>, k: int) -> Seq<
    char,
>
    decreases k,
{
    if k <= 0 {
        Seq::empty()
    } else {
        separator_cells(cols, rows, k - 1) + seq!['+'] + Seq::new(
            (column_width(cols, rows, k - 1) + 2) as nat,
            |_i: int| '-',
        )
    }
}

/// The cells of the first `k` values of a row.
pub open spec fn row_cells(
    cols: Seq<ColumnView>,
    rows: Seq<Seq<ValueView>>,
    r: Seq<ValueView>,
    k: int,
) -> Seq<char>
    decreases k,
{
    if k <= 0 {
        Seq::empty()
    } else {
        row_cells(cols, rows, r, k - 1) + cell(value_text(r[k - 1]), column_width(cols, rows, k - 1))
    }
}

/// The lines of the first `n` rows.
pub open spec fn data_lines(cols: Seq<ColumnView>, rows: Seq<Seq<ValueView>>, n: int) -> Seq<char>
    decreases n,
{
    if n <= 0 {
        Seq::empty()
    } else {
        data_lines(cols, rows, n - 1) + row_cells(cols, rows, rows[n - 1], rows[n - 1].len() as int)
            + seq!['|', '\n']
    }
}

/// The result as a bordered text table with a closing count of rows.
pub open spec fn table_text(cols: Seq<ColumnView>, rows: Seq<Seq<ValueView>>) -> Seq<char> {
    if cols.len() == 0 {
        seq!['E', 'm', 'p', 't', 'y', ' ', 'r', 'e', 's', 'u', 'l', 't', ' ', 's', 'e', 't']
    } else {
        header_cells(cols, rows, cols.len() as int) + seq!['|', '\n'] + separator_cells(
            cols,
            rows,
            cols.len() as int,
        ) + seq!['+', '\n'] + data_lines(cols, rows, rows.len() as int) + seq!['\n']
            + nat_digits(rows.len()) + seq![
            ' ', 'r', 'o', 'w', '(', 's', ')', ' ', 'r', 'e', 't', 'u', 'r', 'n', 'e', 'd',
        ]
    }
}

/// Appends `s` and spaces up to `w` characters.
fn push_padded(out: &mut String, s: &str, w: usize)
    ensures
        final(out)@ == old(out)@ + pad(s@, w as int),
{
    let ghost start = out@;
    out.append(s);
    let n = s.unicode_len();
    let mut k = n;
    while k < w
        invariant
            n == s@.len(),
            n <= k,
            k <= w || k == n,
            out@ == start + s@ + Seq::new((k - n) as nat, |_i: int| ' '),
        decreases w - k,
    {
        out.push(' ');
        k = k + 1;
        assert(Seq::new((k - n) as nat, |_i: int| ' ') =~= Seq::new(
            (k - 1 - n) as nat,
            |_i: int| ' ',
        ).push(' '));
        assert(out@ =~= start + s@ + Seq::new((k - n) as nat, |_i: int| ' '));
    }
    if n >= w {
        assert(Seq::new((k - n) as nat, |_i: int| ' ') =~= Seq::<char>::empty());
        assert(out@ =~= start + s@);
    } else {
        assert(k == w);
        assert(out@ =~= start + pad(s@, w as int));
    }
}

/// Appends a cell: `| `, the padded text, and a space.
fn push_cell(out: &mut String, s: &str, w: usize)
    ensures
        final(out)@ == old(out)@ + cell(s@, w as int),
{
    let ghost start = out@;
    out.push('|');
    out.push(' ');
    push_padded(out, s, w);
    out.push(' ');
    assert(out@ =~= start + cell(s@, w as int));
}

impl ResultSet {
    /// The width of each column.
    fn column_widths(&self) -> (r: Vec<usize>)
        requires
            forall|a: int|
                0 <= a < self.rows@.len() ==> #[trigger] self.rows@[a].values@.len()
                    <= self.schema.columns@.len(),
        ensures
            r@.len() == self.schema.columns@.len(),
            forall|k: int|
                0 <= k < r@.len() ==> #[trigger] r@[k] as int == column_width(
                    self.schema@,
                    rows_view(self.rows@),
                    k,
                ),
    {
        let ghost cols = self.schema@;
        let ghost rows = rows_view(self.rows@);
        let ncols = self.schema.columns.len();
        assert(cols.len() == ncols);
        let mut widths: Vec<usize> = Vec::new();
        let mut i: usize = 0;
        assert(rows.take(0) =~= Seq::<Seq<ValueView>>::empty());
        while i < ncols
            invariant
                i <= ncols,
                ncols == cols.len(),
                cols == self.schema@,
                rows.take(0) =~= Seq::<Seq<ValueView>>::empty(),
                widths@.len() == i,
                forall|k: int|
                    0 <= k < i ==> #[trigger] widths@[k] as int == width_over(
                        rows.take(0),
                        k,
                        byte_width(cols[k].name),
                    ),
            decreases ncols - i,
        {
            assert(cols[i as int].name == self.schema.columns@[i as int].name@);
            widths.push(self.schema.columns[i].name.as_str().len());
            i = i + 1;
        }
        let mut a: usize = 0;
        while a < self.rows.len()
            invariant
                a <= self.rows@.len(),
                ncols == cols.len(),
                cols == self.schema@,
                rows == rows_view(self.rows@),
                forall|b: int|
                    0 <= b < self.rows@.len() ==> #[trigger] self.rows@[b].values@.len() <= ncols,
                widths@.len() == ncols,
                forall|k: int|
                    0 <= k < ncols ==> #[trigger] widths@[k] as int == width_over(
                        rows.take(a as int),
                        k,
                        byte_width(cols[k].name),
                    ),
            decreases self.rows@.len() - a,
        {
            let row = &self.rows[a];
            let ghost next = rows.take(a as int + 1);
            assert(next.drop_last() == rows.take(a as int));
            assert(next.last() == row@);
            let mut c: usize = 0;
            while c < row.values.len()
                invariant
                    c <= row.values@.len(),
                    row.values@.len() <= ncols,
                    ncols == cols.len(),
                    next.len() == a as int + 1,
                    next.drop_last() == rows.take(a as int),
                    next.last() == row@,
                    widths@.len() == ncols,
                    forall|k: int|
                        0 <= k < ncols ==> #[trigger] widths@[k] as int == if k < c {
                            width_over(next, k, byte_width(cols[k].name))
                        } else {
                            width_over(rows.take(a as int), k, byte_width(cols[k].name))
                        },
                decreases row.values@.len() - c,
            {
                let shown = row.values[c].display();
                let w = shown.as_str().len();
                assert(row@[c as int] == row.values@[c as int]@);
                let ghost hb = byte_width(cols[c as int].name);
                assert(w as int == byte_width(value_text(row@[c as int])));
                assert(width_over(next, c as int, hb) == if w as int > width_over(
                    rows.take(a as int),
                    c as int,
                    hb,
                ) {
                    w as int
                } else {
                    width_over(rows.take(a as int), c as int, hb)
                });
                if w > widths[c] {
                    widths[c] = w;
                }
                c = c + 1;
            }
            a = a + 1;
        }
        assert(rows.take(self.rows@.len() as int) == rows);
        widths
    }

    /// Appends the lines of the rows.
    fn push_rows(&self, out: &mut String, widths: &Vec<usize>)
        requires
            forall|a: int|
                0 <= a < self.rows@.len() ==> #[trigger] self.rows@[a].values@.len()
                    <= self.schema.columns@.len(),
            widths@.len() == self.schema.columns@.len(),
            forall|k: int|
                0 <= k < widths@.len() ==> #[trigger] widths@[k] as int == column_width(
                    self.schema@,
                    rows_view(self.rows@),
                    k,
                ),
        ensures
            final(out)@ == old(out)@ + data_lines(
                self.schema@,
                rows_view(self.rows@),
                self.rows@.len() as int,
            ),
    {
        let ghost cols = self.schema@;
        let ghost rows = rows_view(self.rows@);
        let ghost body_start = out@;
        let mut a: usize = 0;
        while a < self.rows.len()
            invariant
                a <= self.rows@.len(),
                cols == self.schema@,
                rows == rows_view(self.rows@),
                forall|b: int|
                    0 <= b < self.rows@.len() ==> #[trigger] self.rows@[b].values@.len()
                        <= widths@.len(),
                forall|k: int|
                    0 <= k < widths@.len() ==> #[trigger] widths@[k] as int == column_width(
                        cols,
                        rows,
                        k,
                    ),
                out@ == body_start + data_lines(cols, rows, a as int),
            decreases self.rows@.len() - a,
        {
            let row = &self.rows[a];
            assert(rows[a as int] == row@);
            let ghost line_start = out@;
            let mut c: usize = 0;
            while c < row.values.len()
                invariant
                    c <= row.values@.len(),
                    row.values@.len() <= widths@.len(),
                    forall|k: int|
                        0 <= k < widths@.len() ==> #[trigger] widths@[k] as int == column_width(
                            cols,
                            rows,
                            k,
                        ),
                    out@ == line_start + row_cells(cols, rows, row@, c as int),
                decreases row.values@.len() - c,
            {
                let shown = row.values[c].display();
                assert(row@[c as int] == row.values@[c as int]@);
                push_cell(out, shown.as_str(), widths[c]);
                assert(out@ =~= line_start + row_cells(cols, rows, row@, c as int + 1));
                c = c + 1;
            }
            out.push('|');
            out.push('\n');
            assert(row@.len() == row.values@.len());
            assert(out@ =~= body_start + data_lines(cols, rows, a as int + 1));
            a = a + 1;
        }
    }

    /// The result as a bordered text table: a header line, a separator, a line per row,
    /// and the count of rows; each column as wide as the widest of its header and values.
    pub fn to_string(&self) -> (r: String)
        requires
            forall|a: int|
                0 <= a < self.rows@.len() ==> #[trigger] self.rows@[a].values@.len()
                    <= self.schema.columns@.len(),
        ensures
            r@ == table_text(self.schema@, rows_view(self.rows@)),
    {
        let ghost cols = self.schema@;
        let ghost rows = rows_view(self.rows@);
        let ncols = self.schema.columns.len();
        assert(cols.len() == ncols);
        if ncols == 0 {
            return string_from_chars(
                &['E', 'm', 'p', 't', 'y', ' ', 'r', 'e', 's', 'u', 'l', 't', ' ', 's', 'e', 't'],
            );
        }
        let widths = self.column_widths();
        let mut out = String::new();
        let mut i: usize = 0;
        while i < ncols
            invariant
                i <= ncols,
                ncols == cols.len(),
                cols == self.schema@,
                rows == rows_view(self.rows@),
                widths@.len() == ncols,
                forall|k: int|
                    0 <= k < ncols ==> #[trigger] widths@[k] as int == column_width(cols, rows, k),
                out@ == header_cells(cols, rows, i as int),
            decreases ncols - i,
        {
            assert(cols[i as int].name == self.schema.columns@[i as int].name@);
            push_cell(&mut out, self.schema.columns[i].name.as_str(), widths[i]);
            i = i + 1;
        }
        out.push('|');
        out.push('\n');
        let ghost head = out@;
        let mut i: usize = 0;
        while i < ncols
            invariant
                i <= ncols,
                ncols == cols.len(),
                widths@.len() == ncols,
                forall|k: int|
                    0 <= k < ncols ==> #[trigger] widths@[k] as int == column_width(cols, rows, k),
                out@ == head + separator_cells(cols, rows, i as int),
            decreases ncols - i,
        {
            let ghost before = out@;
            out.push('+');
            let mut d: usize = 0;
            while d < widths[i]
                invariant
                    i < widths@.len(),
                    d <= widths@[i as int],
                    out@ == before + seq!['+'] + Seq::new(d as nat, |_j: int| '-'),
                decreases widths@[i as int] - d,
            {
                out.push('-');
                d = d + 1;
                assert(Seq::new(d as nat, |_j: int| '-') =~= Seq::new(
                    (d - 1) as nat,
                    |_j: int| '-',
                ).push('-'));
            }
            out.push('-');
            out.push('-');
            assert(Seq::new((widths@[i as int] + 2) as nat, |_j: int| '-') =~= Seq::new(
                d as nat,
                |_j: int| '-',
            ).push('-').push('-'));
            assert(out@ =~= head + separator_cells(cols, rows, i as int + 1));
            i = i + 1;
        }
        out.push('+');
        out.push('\n');
        let ghost body_start = out@;
        self.push_rows(&mut out, &widths);
        let ghost body_end = out@;
        out.push('\n');
        out.append(format_count(self.rows.len()).as_str());
        out.append(" row(s) returned");
        proof {
            reveal_strlit(" row(s) returned");
        }
        assert(" row(s) returned"@ =~= seq![
            ' ', 'r', 'o', 'w', '(', 's', ')', ' ', 'r', 'e', 't', 'u', 'r', 'n', 'e', 'd',
        ]);
        assert(rows.len() == self.rows@.len());
        assert(out@ =~= table_text(cols, rows));
        out
    }
}

} // verus!
