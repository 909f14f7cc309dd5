//! A plain text table whose columns widen to fit their entries.
use vstd::prelude::*;

use crate::text::{byte_len, chars_of, decimal, push_char_repeat, str_len, string_from_chars, usize_to_string};
use crate::views::utils::fill;

verus! {

/// A column heading and the blank space that follows it.
pub struct Column {
    pub text: String,
    pub spacing: usize,
}

/// The bytes a column takes: its heading and its spacing.
pub open spec fn col_width(c: Column) -> int {
    byte_len(c.text@) + c.spacing
}

impl Column {
    /// A column headed `text`, with no extra spacing.
    pub fn new(text: &str) -> (c: Self)
        ensures
            c.text@ == text@,
            c.spacing == 0,
    {
        Column { text: string_from_chars(&chars_of(text)), spacing: 0 }
    }

    /// Widens the column so that `word` fits: the spacing becomes the bytes by which
    /// `word` is longer than the heading, or 0.
    pub fn update_spacing(&mut self, word: String)
        ensures
            final(self).text == old(self).text,
            final(self).spacing as int == if byte_len(word@) > byte_len(old(self).text@) {
                byte_len(word@) - byte_len(old(self).text@)
            } else {
                0
            },
    {
        let w = str_len(word.as_str());
        let t = str_len(self.text.as_str());
        self.spacing = if w > t { w - t } else { 0 };
    }
}

/// One entry of a table row.
pub struct Rows {
    pub value: String,
}

impl Rows {
    /// An entry holding `value`.
    pub fn new(value: &str) -> (r: Self)
        ensures
            r.value@ == value@,
    {
        Rows { value: string_from_chars(&chars_of(value)) }
    }
}

/// Why a table operation was refused.
#[derive(Clone, Copy, PartialEq, Eq, Debug)]
pub enum TableError {
    /// A row does not have one entry per column.
    RowLengthMismatch,
    /// Some stored row does not have one entry per column.
    RowsLengthMismatch,
}

impl TableError {
    /// The text of the error.
    pub fn message(&self) -> (m: String)
        ensures
            m@ == match *self {
                TableError::RowLengthMismatch => "table assertion failed, length of column and row are not the same"@,
                TableError::RowsLengthMismatch => "table assertion failed, length of column and rows are not the same"@,
            },
    {
        let mut m = String::new();
        match self {
            TableError::RowLengthMismatch => m.push_str(
                "table assertion failed, length of column and row are not the same",
            ),
            TableError::RowsLengthMismatch => m.push_str(
                "table assertion failed, length of column and rows are not the same",
            ),
        }
        m
    }
}

/// A table: column headings and rows of optional entries.
pub struct TabularView {
    pub cols: Vec<Column>,
    pub rows: Vec<Vec<Option<Rows>>>,
}

/// The text an entry is measured by: its value, or `none` when it is empty.
pub open spec fn measured(c: Option<Rows>) -> Seq<char> {
    match c {
        Some(r) => r.value@,
        None => "none"@,
    }
}

/// The text an entry is printed as: its value, or `None` when it is empty.
pub open spec fn printed(c: Option<Rows>) -> Seq<char> {
    match c {
        Some(r) => r.value@,
        None => "None"@,
    }
}

/// Every row has one entry per column.
pub open spec fn rows_match(cols: Seq<Column>, rows: Seq<Vec<Option<Rows>>>) -> bool {
    forall|i: int| 0 <= i < rows.len() ==> (#[trigger] rows[i]).len() == cols.len()
}

/// Every column width fits in an `isize`, so widths can be added and compared safely.
pub open spec fn widths_fit(cols: Seq<Column>) -> bool {
    forall|i: int| 0 <= i < cols.len() ==> col_width(#[trigger] cols[i]) <= isize::MAX
}

/// Every column is at least as wide as each entry of `row` under it.
pub open spec fn covers_row(cols: Seq<Column>, row: Seq<Option<Rows>>) -> bool {
    forall|j: int| 0 <= j < cols.len() && j < row.len() ==> byte_len(measured(#[trigger] row[j])) <= col_width(cols[j])
}

/// Every column is at least as wide as each of its entries.
pub open spec fn covers(cols: Seq<Column>, rows: Seq<Vec<Option<Rows>>>) -> bool {
    forall|i: int| 0 <= i < rows.len() ==> covers_row(cols, (#[trigger] rows[i])@)
}

/// The columns after widening each to fit the matching entry of `row`.
pub open spec fn widened(cols: Seq<Column>, row: Seq<Option<Rows>>) -> Seq<Column> {
    Seq::new(cols.len(), |j: int| {
        let c = cols[j];
        let cont = byte_len(measured(row[j]));
        if col_width(c) <= cont {
            Column { text: c.text, spacing: (cont - byte_len(c.text@)) as usize }
        } else {
            c
        }
    })
}

/// The heading line between the two rules: `|heading<spaces>` per column.
pub open spec fn header_cells(cols: Seq<Column>) -> Seq<char>
    decreases cols.len(),
{
    if cols.len() == 0 {
        Seq::empty()
    } else {
        header_cells(cols.drop_last()) + seq!['|'] + cols.last().text@ + fill(' ', cols.last().spacing as nat)
    }
}

/// `|a - b|`.
pub open spec fn abs_diff(a: int, b: int) -> nat {
    if a >= b { (a - b) as nat } else { (b - a) as nat }
}

/// One printed row: `|entry<spaces>` per entry, the spaces being the distance between
/// the entry's length and its column's width.
pub open spec fn row_cells(cols: Seq<Column>, row: Seq<Option<Rows>>) -> Seq<char>
    decreases row.len(),
{
    if row.len() == 0 {
        Seq::empty()
    } else {
        let j = row.len() - 1;
        row_cells(cols, row.drop_last()) + seq!['|'] + printed(row[j])
            + fill(' ', abs_diff(byte_len(printed(row[j])) as int, col_width(cols[j])))
    }
}

/// All printed rows, each closed by `|`, a newline and two spaces.
pub open spec fn rows_text(cols: Seq<Column>, rows: Seq<Vec<Option<Rows>>>) -> Seq<char>
    decreases rows.len(),
{
    if rows.len() == 0 {
        Seq::empty()
    } else {
        rows_text(cols, rows.drop_last()) + row_cells(cols, rows.last()@) + "|\n  "@
    }
}

/// The sum of the column widths.
pub open spec fn total_width(cols: Seq<Column>) -> int
    decreases cols.len(),
{
    if cols.len() == 0 {
        0
    } else {
        total_width(cols.drop_last()) + col_width(cols.last())
    }
}

/// The full text of a table.
pub open spec fn rendered(cols: Seq<Column>, rows: Seq<Vec<Option<Rows>>>) -> Seq<char> {
    let rule = fill('-', (total_width(cols) + 2 * cols.len() - 3) as nat);
    "  "@ + rule + "\n  "@ + header_cells(cols) + "|\n  "@ + rule + "\n  "@ + rows_text(cols, rows)
        + rule + "\n  "@ + "Showing "@ + decimal(rows.len()) + " Records"@
}


/// Every entry of `row` measures at most `usize::MAX` bytes, as any string in memory does.
pub open spec fn row_fits(row: Seq<Option<Rows>>) -> bool {
    forall|j: int| 0 <= j < row.len() ==> byte_len(measured(#[trigger] row[j])) <= usize::MAX
}

/// Every column width is a `usize`, so a width can be computed without overflow.
pub open spec fn widths_in_range(cols: Seq<Column>) -> bool {
    forall|i: int| 0 <= i < cols.len() ==> col_width(#[trigger] cols[i]) <= usize::MAX
}

/// The entries of a row given as optional strings.
pub open spec fn as_entries(row: Seq<Option<String>>) -> Seq<Option<Rows>> {
    row.map_values(|c: Option<String>| match c {
        Some(s) => Some(Rows { value: s }),
        None => None,
    })
}

/// The columns after widening for each row of `rows` in turn.
pub open spec fn widened_all(cols: Seq<Column>, rows: Seq<Vec<Option<Rows>>>) -> Seq<Column>
    decreases rows.len(),
{
    if rows.len() == 0 {
        cols
    } else {
        widened(widened_all(cols, rows.drop_last()), rows.last()@)
    }
}

/// Widens each column of `cols` to fit the matching entry of `row`.
fn widen_cols(cols: &mut Vec<Column>, row: &Vec<Option<Rows>>)
    requires
        row.len() == old(cols).len(),
        widths_in_range(old(cols)@),
    ensures
        final(cols)@ == widened(old(cols)@, row@),
        widths_in_range(final(cols)@),
{
    let n = cols.len();
    let mut j: usize = 0;
    while j < n
        invariant
            n == cols.len(),
            n == old(cols).len(),
            row.len() == n,
            j <= n,
            widths_in_range(old(cols)@),
            forall|k: int| 0 <= k < j ==> cols@[k] == widened(old(cols)@, row@)[k],
            forall|k: int| j <= k < n ==> cols@[k] == old(cols)@[k],
            widths_in_range(cols@),
        decreases n - j,
    {
        let cont_len = match &row[j] {
            Some(val) => str_len(val.value.as_str()),
            None => str_len("none"),
        };
        let text_len = str_len(cols[j].text.as_str());
        assert(col_width(cols@[j as int]) <= usize::MAX);
        if cols[j].spacing + text_len <= cont_len {
            let c = Column { text: cols[j].text.clone(), spacing: cont_len - text_len };
            cols.set(j, c);
        }
        j = j + 1;
    }
    assert(cols@ =~= widened(old(cols)@, row@));
}

impl TabularView {
    /// An empty table with the given columns.
    pub fn new(cols: Vec<Column>) -> (t: Self)
        ensures
            t.cols@ == cols@,
            t.rows@.len() == 0,
    {
        TabularView { cols, rows: Vec::new() }
    }

    /// Whether every stored row has one entry per column.
    pub fn assertions(&self) -> (b: bool)
        ensures
            b == rows_match(self.cols@, self.rows@),
    {
        let mut i: usize = 0;
        while i < self.rows.len()
            invariant
                i <= self.rows.len(),
                forall|k: int| 0 <= k < i ==> (#[trigger] self.rows@[k]).len() == self.cols.len(),
            decreases self.rows.len() - i,
        {
            if self.rows[i].len() != self.cols.len() {
                return false;
            }
            i = i + 1;
        }
        true
    }

    /// Widens the columns to fit `row`, which must have one entry per column.
    pub fn calculate_spacing_single_row(&mut self, row: Vec<Option<Rows>>) -> (r: Result<(), TableError>)
        requires
            widths_in_range(old(self).cols@),
        ensures
            row.len() != old(self).cols.len() ==> r == Err::<(), TableError>(TableError::RowLengthMismatch)
                && final(self).cols@ == old(self).cols@,
            row.len() == old(self).cols.len() ==> r is Ok
                && final(self).cols@ == widened(old(self).cols@, row@),
            final(self).rows@ == old(self).rows@,
            widths_in_range(final(self).cols@),
    {
        if row.len() != self.cols.len() {
            return Err(TableError::RowLengthMismatch);
        }
        widen_cols(&mut self.cols, &row);
        Ok(())
    }

    /// Widens the columns to fit every stored row; refused when some row does not
    /// have one entry per column.
    pub fn calculate_spacing(&mut self) -> (r: Result<(), TableError>)
        requires
            widths_in_range(old(self).cols@),
        ensures
            !rows_match(old(self).cols@, old(self).rows@) ==> r == Err::<(), TableError>(TableError::RowLengthMismatch)
                && final(self).cols@ == old(self).cols@,
            rows_match(old(self).cols@, old(self).rows@) ==> r is Ok
                && final(self).cols@ == widened_all(old(self).cols@, old(self).rows@),
            final(self).rows@ == old(self).rows@,
            widths_in_range(final(self).cols@),
    {
        if !self.assertions() {
            return Err(TableError::RowLengthMismatch);
        }
        let mut i: usize = 0;
        while i < self.rows.len()
            invariant
                i <= self.rows.len(),
                self.rows@ == old(self).rows@,
                rows_match(old(self).cols@, old(self).rows@),
                self.cols.len() == old(self).cols.len(),
                self.cols@ == widened_all(old(self).cols@, self.rows@.take(i as int)),
                widths_in_range(self.cols@),
            decreases self.rows.len() - i,
        {
            assert(self.rows@.take(i + 1).drop_last() =~= self.rows@.take(i as int));
            assert(self.rows@[i as int].len() == old(self).cols.len());
            widen_cols(&mut self.cols, &self.rows[i]);
            i = i + 1;
        }
        assert(self.rows@.take(self.rows.len() as int) =~= self.rows@);
        Ok(())
    }

    /// Appends a row and widens the columns to fit it; refused, with the table left
    /// as it was, when the row does not have one entry per column.
    pub fn add_row(&mut self, row: Vec<Option<String>>) -> (r: Result<(), TableError>)
        requires
            widths_in_range(old(self).cols@),
        ensures
            row.len() != old(self).cols.len() ==> r == Err::<(), TableError>(TableError::RowLengthMismatch)
                && final(self).cols@ == old(self).cols@ && final(self).rows@ == old(self).rows@,
            row.len() == old(self).cols.len() ==> r is Ok
                && final(self).rows@.len() == old(self).rows@.len() + 1
                && final(self).rows@.drop_last() == old(self).rows@
                && final(self).rows@.last()@ == as_entries(row@)
                && final(self).cols@ == widened(old(self).cols@, as_entries(row@)),
            widths_in_range(final(self).cols@),
    {
        if row.len() != self.cols.len() {
            return Err(TableError::RowLengthMismatch);
        }
        let mut stored: Vec<Option<Rows>> = Vec::new();
        let mut measured_row: Vec<Option<Rows>> = Vec::new();
        let mut i: usize = 0;
        while i < row.len()
            invariant
                i <= row.len(),
                stored@ == as_entries(row@).take(i as int),
                measured_row@ == as_entries(row@).take(i as int),
            decreases row.len() - i,
        {
            match &row[i] {
                Some(s) => {
                    stored.push(Some(Rows { value: s.clone() }));
                    measured_row.push(Some(Rows { value: s.clone() }));
                },
                None => {
                    stored.push(None);
                    measured_row.push(None);
                },
            }
            i = i + 1;
            assert(stored@ =~= as_entries(row@).take(i as int));
            assert(measured_row@ =~= as_entries(row@).take(i as int));
        }
        assert(as_entries(row@).take(row.len() as int) =~= as_entries(row@));
        self.rows.push(stored);
        let r = self.calculate_spacing_single_row(measured_row);
        assert(self.rows@.drop_last() =~= old(self).rows@);
        r
    }
}

/// After widening for a row, each column is as wide as the row's entry under it, and
/// no column got narrower.
pub proof fn law_widened_covers(cols: Seq<Column>, row: Seq<Option<Rows>>)
    requires
        row.len() == cols.len(),
        row_fits(row),
    ensures
        covers_row(widened(cols, row), row),
        forall|j: int| 0 <= j < cols.len() ==> col_width(#[trigger] widened(cols, row)[j]) >= col_width(cols[j]),
{
}

/// Widening keeps a column wide enough for every row it already covered.
proof fn lemma_widened_keeps_cover(cols: Seq<Column>, rows: Seq<Vec<Option<Rows>>>, row: Seq<Option<Rows>>)
    requires
        row.len() == cols.len(),
        row_fits(row),
        covers(cols, rows),
    ensures
        covers(widened(cols, row), rows),
{
    assert forall|i: int| 0 <= i < rows.len() implies covers_row(widened(cols, row), (#[trigger] rows[i])@) by {
        assert(covers_row(cols, rows[i]@));
        assert forall|j: int| 0 <= j < cols.len() && j < rows[i]@.len() implies byte_len(measured(#[trigger] rows[i]@[j])) <= col_width(widened(cols, row)[j]) by {
            assert(byte_len(measured(rows[i]@[j])) <= col_width(cols[j]));
        }
    }
}

/// Every entry of every row measures at most `usize::MAX` bytes.
pub open spec fn rows_fit(rows: Seq<Vec<Option<Rows>>>) -> bool {
    forall|i: int| 0 <= i < rows.len() ==> row_fits((#[trigger] rows[i])@)
}

/// After `calculate_spacing`, every column is at least as wide as each of its entries.
pub proof fn law_widened_all_covers(cols: Seq<Column>, rows: Seq<Vec<Option<Rows>>>)
    requires
        rows_match(cols, rows),
        rows_fit(rows),
    ensures
        covers(widened_all(cols, rows), rows),
        widened_all(cols, rows).len() == cols.len(),
    decreases rows.len(),
{
    if rows.len() > 0 {
        let init = rows.drop_last();
        assert(rows_fit(init)) by {
            assert forall|i: int| 0 <= i < init.len() implies row_fits((#[trigger] init[i])@) by {
                assert(init[i] == rows[i]);
            }
        }
        assert(row_fits(rows.last()@));
        assert(rows_match(cols, init)) by {
            assert forall|i: int| 0 <= i < init.len() implies (#[trigger] init[i]).len() == cols.len() by {
                assert(init[i] == rows[i]);
            }
        }
        law_widened_all_covers(cols, init);
        let w = widened_all(cols, init);
        assert(rows[rows.len() - 1].len() == cols.len());
        lemma_widened_keeps_cover(w, init, rows.last()@);
        law_widened_covers(w, rows.last()@);
        assert forall|i: int| 0 <= i < rows.len() implies covers_row(widened_all(cols, rows), (#[trigger] rows[i])@) by {
            if i < rows.len() - 1 {
                assert(init[i] == rows[i]);
            }
        }
    }
}

/// Adding a row to a table whose columns cover their entries keeps them covering.
pub proof fn law_add_row_keeps_cover(cols: Seq<Column>, rows: Seq<Vec<Option<Rows>>>, row: Seq<Option<String>>)
    requires
        row.len() == cols.len(),
        row_fits(as_entries(row)),
        covers(cols, rows),
    ensures
        forall|stored: Vec<Option<Rows>>| stored@ == as_entries(row) ==>
            #[trigger] covers(widened(cols, as_entries(row)), rows.push(stored)),
{
    let e = as_entries(row);
    lemma_widened_keeps_cover(cols, rows, e);
    law_widened_covers(cols, e);
    assert forall|stored: Vec<Option<Rows>>| stored@ == as_entries(row) implies
        #[trigger] covers(widened(cols, as_entries(row)), rows.push(stored)) by {
        assert forall|i: int| 0 <= i < rows.push(stored).len() implies covers_row(widened(cols, e), (#[trigger] rows.push(stored)[i])@) by {
            if i < rows.len() {
                assert(rows.push(stored)[i] == rows[i]);
            }
        }
    }
}

/// Widening for a row that the columns already cover leaves them as they are.
proof fn lemma_widened_covered(cols: Seq<Column>, row: Seq<Option<Rows>>)
    requires
        row.len() == cols.len(),
        covers_row(cols, row),
    ensures
        widened(cols, row) == cols,
{
    assert forall|j: int| 0 <= j < cols.len() implies #[trigger] widened(cols, row)[j] == cols[j] by {
        assert(byte_len(measured(row[j])) <= col_width(cols[j]));
    }
    assert(widened(cols, row) =~= cols);
}

/// Widening for rows that the columns already cover leaves them as they are.
proof fn lemma_widened_all_covered(cols: Seq<Column>, rows: Seq<Vec<Option<Rows>>>)
    requires
        rows_match(cols, rows),
        covers(cols, rows),
    ensures
        widened_all(cols, rows) == cols,
    decreases rows.len(),
{
    if rows.len() > 0 {
        let init = rows.drop_last();
        assert(rows_match(cols, init)) by {
            assert forall|i: int| 0 <= i < init.len() implies (#[trigger] init[i]).len() == cols.len() by {
                assert(init[i] == rows[i]);
            }
        }
        assert(covers(cols, init)) by {
            assert forall|i: int| 0 <= i < init.len() implies covers_row(cols, (#[trigger] init[i])@) by {
                assert(init[i] == rows[i]);
            }
        }
        lemma_widened_all_covered(cols, init);
        assert(rows[rows.len() - 1].len() == cols.len());
        assert(covers_row(cols, rows[rows.len() - 1]@));
        lemma_widened_covered(cols, rows.last()@);
    }
}

/// Calculating the spacing a second time changes nothing: the columns widened for
/// every row already fit every row, so widening them again leaves them as they are.
pub proof fn law_spacing_settles(cols: Seq<Column>, rows: Seq<Vec<Option<Rows>>>)
    requires
        rows_match(cols, rows),
        rows_fit(rows),
    ensures
        widened_all(widened_all(cols, rows), rows) == widened_all(cols, rows),
{
    law_widened_all_covers(cols, rows);
    let w = widened_all(cols, rows);
    assert(rows_match(w, rows));
    lemma_widened_all_covered(w, rows);
}


/// The sum of widths of the first columns never exceeds that of all columns.
proof fn lemma_total_width_prefix(cols: Seq<Column>, i: int)
    requires
        0 <= i <= cols.len(),
    ensures
        total_width(cols.take(i)) <= total_width(cols),
    decreases cols.len() - i,
{
    if i < cols.len() {
        lemma_total_width_prefix(cols, i + 1);
        assert(cols.take(i + 1).drop_last() =~= cols.take(i));
    } else {
        assert(cols.take(i) =~= cols);
    }
}

impl TabularView {
    /// Appends the cells of one row, padded to their columns, to `s`.
    fn push_row(&self, s: &mut String, row: &Vec<Option<Rows>>)
        requires
            row.len() == self.cols.len(),
            widths_fit(self.cols@),
        ensures
            final(s)@ == old(s)@ + row_cells(self.cols@, row@),
    {
        let mut k: usize = 0;
        while k < row.len()
            invariant
                k <= row.len(),
                row.len() == self.cols.len(),
                widths_fit(self.cols@),
                s@ == old(s)@ + row_cells(self.cols@, row@.take(k as int)),
            decreases row.len() - k,
        {
            assert(row@.take(k + 1).drop_last() =~= row@.take(k as int));
            assert(row@.take(k + 1)[k as int] == row@[k as int]);
            let text_len = str_len(self.cols[k].text.as_str());
            assert(col_width(self.cols@[k as int]) <= isize::MAX);
            let width = text_len + self.cols[k].spacing;
            s.push('|');
            let content_len = match &row[k] {
                Some(c) => {
                    s.push_str(c.value.as_str());
                    str_len(c.value.as_str())
                },
                None => {
                    s.push_str("None");
                    str_len("None")
                },
            };
            let spacing = if content_len >= width { content_len - width } else { width - content_len };
            push_char_repeat(s, ' ', spacing);
            k = k + 1;
            assert(s@ =~= old(s)@ + row_cells(self.cols@, row@.take(k as int)));
        }
        assert(row@.take(row.len() as int) =~= row@);
    }

    /// The table as text: a rule, the headings, a rule, one line per row, a rule and
    /// the number of rows. Refused when some row does not have one entry per column.
    pub fn render(&self) -> (r: Result<String, TableError>)
        requires
            widths_fit(self.cols@),
            rows_match(self.cols@, self.rows@) ==> 3 <= total_width(self.cols@) + 2 * self.cols.len() <= usize::MAX,
        ensures
            !rows_match(self.cols@, self.rows@) ==> r == Err::<String, TableError>(TableError::RowsLengthMismatch),
            rows_match(self.cols@, self.rows@) ==> r is Ok && r->Ok_0@ == rendered(self.cols@, self.rows@),
    {
        if !self.assertions() {
            return Err(TableError::RowsLengthMismatch);
        }
        let n = self.cols.len();
        let mut total: usize = 0;
        let mut j: usize = 0;
        while j < n
            invariant
                n == self.cols.len(),
                j <= n,
                widths_fit(self.cols@),
                total_width(self.cols@) + 2 * n <= usize::MAX,
                total as int == total_width(self.cols@.take(j as int)),
            decreases n - j,
        {
            proof {
                lemma_total_width_prefix(self.cols@, j + 1);
                assert(self.cols@.take(j + 1).drop_last() =~= self.cols@.take(j as int));
            }
            total = total + str_len(self.cols[j].text.as_str()) + self.cols[j].spacing;
            j = j + 1;
        }
        assert(self.cols@.take(n as int) =~= self.cols@);
        let rule_len = total + 2 * n - 3;
        let mut s = String::new();
        s.push_str("  ");
        push_char_repeat(&mut s, '-', rule_len);
        s.push_str("\n  ");
        let ghost head = s@;
        let mut j: usize = 0;
        while j < n
            invariant
                n == self.cols.len(),
                j <= n,
                s@ == head + header_cells(self.cols@.take(j as int)),
            decreases n - j,
        {
            assert(self.cols@.take(j + 1).drop_last() =~= self.cols@.take(j as int));
            s.push('|');
            s.push_str(self.cols[j].text.as_str());
            push_char_repeat(&mut s, ' ', self.cols[j].spacing);
            j = j + 1;
            assert(s@ =~= head + header_cells(self.cols@.take(j as int)));
        }
        assert(self.cols@.take(n as int) =~= self.cols@);
        s.push_str("|\n  ");
        push_char_repeat(&mut s, '-', rule_len);
        s.push_str("\n  ");
        let ghost before_rows = s@;
        let mut i: usize = 0;
        while i < self.rows.len()
            invariant
                i <= self.rows.len(),
                n == self.cols.len(),
                rows_match(self.cols@, self.rows@),
                widths_fit(self.cols@),
                s@ == before_rows + rows_text(self.cols@, self.rows@.take(i as int)),
            decreases self.rows.len() - i,
        {
            assert(self.rows@.take(i + 1).drop_last() =~= self.rows@.take(i as int));
            assert(self.rows@[i as int].len() == n);
            self.push_row(&mut s, &self.rows[i]);
            s.push_str("|\n  ");
            i = i + 1;
            assert(s@ =~= before_rows + rows_text(self.cols@, self.rows@.take(i as int)));
        }
        assert(self.rows@.take(self.rows.len() as int) =~= self.rows@);
        push_char_repeat(&mut s, '-', rule_len);
        s.push_str("\n  ");
        s.push_str("Showing ");
        let count = usize_to_string(self.rows.len());
        s.push_str(count.as_str());
        s.push_str(" Records");
        assert(s@ =~= rendered(self.cols@, self.rows@));
        Ok(s)
    }
}

} // verus!
