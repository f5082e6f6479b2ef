//! The text table the menus are rendered from: rows of cells, each cell a
//! text with an alignment, rendered with per-column widths and two spaces
//! between columns.

use vstd::prelude::*;

verus! {

/// How a cell's text sits in its column.
#[derive(Clone, Copy, Debug, PartialEq, Eq, Structural)]
pub enum Align {
    Left,
    Right,
}

/// The mathematical value of a [`TableCell`].
#[verifier::ext_equal]
pub ghost struct CellModel {
    pub text: Seq<char>,
    pub align: Align,
}

/// One cell: a text and its alignment.
#[derive(Debug)]
pub struct TableCell {
    pub text: String,
    pub align: Align,
}

impl View for TableCell {
    type V = CellModel;

    open spec fn view(&self) -> CellModel {
        CellModel { text: self.text@, align: self.align }
    }
}

impl TableCell {
    /// A left-aligned cell.
    pub fn new(text: String) -> (r: TableCell)
        ensures
            r@ == (CellModel { text: text@, align: Align::Left }),
    {
        TableCell { text, align: Align::Left }
    }

    /// A cell with the given alignment.
    pub fn new_with_alignment(text: String, align: Align) -> (r: TableCell)
        ensures
            r@ == (CellModel { text: text@, align }),
    {
        TableCell { text, align }
    }

    /// The cell's text, for in-place edits such as the selection marker.
    pub fn text_mut(&mut self) -> (r: &mut String)
        ensures
            *r == old(self).text,
            final(self).text == *final(r),
            final(self).align == old(self).align,
    {
        &mut self.text
    }
}

/// The mathematical value of a [`TableRow`]: its cells.
pub open spec fn row_model(r: &TableRow) -> Seq<CellModel> {
    r.cells@.map_values(|c: TableCell| c@)
}

/// One row of cells.
#[derive(Debug)]
pub struct TableRow {
    pub cells: Vec<TableCell>,
}

impl View for TableRow {
    type V = Seq<CellModel>;

    open spec fn view(&self) -> Seq<CellModel> {
        row_model(self)
    }
}

impl TableRow {
    /// A row of the given cells.
    pub fn new(cells: Vec<TableCell>) -> (r: TableRow)
        ensures
            r@ == cells@.map_values(|c: TableCell| c@),
    {
        TableRow { cells }
    }

    /// The row's cells, for in-place edits.
    pub fn cells_mut(&mut self) -> (r: &mut Vec<TableCell>)
        ensures
            *r == old(self).cells,
            final(self).cells == *final(r),
    {
        &mut self.cells
    }
}

/// The mathematical value of a [`Table`]: its rows of cells.
pub open spec fn table_model(t: &Table) -> Seq<Seq<CellModel>> {
    t.rows@.map_values(|r: TableRow| r@)
}

/// A table of rows.
#[derive(Debug)]
pub struct Table {
    pub rows: Vec<TableRow>,
}

impl View for Table {
    type V = Seq<Seq<CellModel>>;

    open spec fn view(&self) -> Seq<Seq<CellModel>> {
        table_model(self)
    }
}

impl Table {
    /// A table of the given rows.
    pub fn new(rows: Vec<TableRow>) -> (r: Table)
        ensures
            r@ == rows@.map_values(|x: TableRow| x@),
    {
        Table { rows }
    }

    /// The table's rows, for in-place edits.
    pub fn rows_mut(&mut self) -> (r: &mut Vec<TableRow>)
        ensures
            *r == old(self).rows,
            final(self).rows == *final(r),
    {
        &mut self.rows
    }

    /// Appends a row.
    pub fn push(&mut self, row: TableRow)
        ensures
            final(self).rows@ == old(self).rows@.push(row),
            final(self)@ == old(self)@.push(row@),
    {
        proof {
            assert(table_model(self).push(row@) =~= self.rows@.push(row).map_values(
                |r: TableRow| r@,
            ));
        }
        self.rows.push(row);
    }

    /// Whether the table has no rows.
    pub fn is_empty(&self) -> (r: bool)
        ensures
            r == (self@.len() == 0),
    {
        self.rows.is_empty()
    }
}

/// `n` spaces.
pub open spec fn spaces(n: nat) -> Seq<char>
    decreases n,
{
    if n == 0 {
        Seq::<char>::empty()
    } else {
        spaces((n - 1) as nat).push(' ')
    }
}

proof fn lemma_spaces_add(a: nat, b: nat)
    ensures
        spaces(a + b) == spaces(a) + spaces(b),
    decreases b,
{
    if b == 0 {
        assert(spaces(a) + spaces(0) =~= spaces(a));
    } else {
        lemma_spaces_add(a, (b - 1) as nat);
        assert(spaces(a) + spaces(b) =~= (spaces(a) + spaces((b - 1) as nat)).push(' '));
    }
}

/// The width of column `j`: the longest text any row has there.
pub open spec fn col_width(rows: Seq<Seq<CellModel>>, j: int) -> nat
    decreases rows.len(),
{
    if rows.len() == 0 {
        0
    } else {
        let w = col_width(rows.drop_last(), j);
        let lw = if 0 <= j < rows.last().len() {
            rows.last()[j].text.len()
        } else {
            0
        };
        if lw > w {
            lw
        } else {
            w
        }
    }
}

proof fn lemma_col_width_last(prev: Seq<Seq<CellModel>>, row: Seq<CellModel>, j: int)
    ensures
        col_width(prev.push(row), j) == ({
            let w = col_width(prev, j);
            let lw: nat = if 0 <= j < row.len() {
                row[j].text.len()
            } else {
                0
            };
            if lw > w {
                lw
            } else {
                w
            }
        }),
{
    let cur = prev.push(row);
    assert(cur.drop_last() =~= prev);
    assert(cur.last() == row);
}

proof fn lemma_col_width_ge(rows: Seq<Seq<CellModel>>, i: int, j: int)
    requires
        0 <= i < rows.len(),
        0 <= j < rows[i].len(),
    ensures
        rows[i][j].text.len() <= col_width(rows, j),
    decreases rows.len(),
{
    if i == rows.len() - 1 {
        assert(rows.last() == rows[i]);
    } else {
        lemma_col_width_ge(rows.drop_last(), i, j);
        assert(rows.drop_last()[i] == rows[i]);
    }
}

/// The padding a cell is rendered with: up to the column width, plus the
/// two-space separator on every cell but the row's last.
pub open spec fn cell_pad(rows: Seq<Seq<CellModel>>, i: int, j: int) -> nat {
    ((col_width(rows, j) - rows[i][j].text.len()) + if j < rows[i].len() - 1 {
        2int
    } else {
        0int
    }) as nat
}

/// One rendered cell: left alignment pads after the text, right before it.
pub open spec fn spec_render_cell(c: CellModel, pad: nat) -> Seq<char> {
    match c.align {
        Align::Left => c.text + spaces(pad),
        Align::Right => spaces(pad) + c.text,
    }
}

/// The rendered cells of row `i` from column `j` on, ending in a newline.
pub open spec fn spec_render_cells(rows: Seq<Seq<CellModel>>, i: int, j: int) -> Seq<char>
    decreases rows[i].len() - j,
{
    if !(0 <= i < rows.len()) || !(0 <= j < rows[i].len()) {
        seq!['\n']
    } else {
        spec_render_cell(rows[i][j], cell_pad(rows, i, j)) + spec_render_cells(rows, i, j + 1)
    }
}

/// The rendered rows from `i` on.
pub open spec fn spec_render_rows(rows: Seq<Seq<CellModel>>, i: int) -> Seq<char>
    decreases rows.len() - i,
{
    if !(0 <= i < rows.len()) {
        Seq::<char>::empty()
    } else {
        spec_render_cells(rows, i, 0) + spec_render_rows(rows, i + 1)
    }
}

/// The whole rendered table: every row on its own line, columns padded to
/// their widths with two spaces between columns.
pub open spec fn spec_render_table(rows: Seq<Seq<CellModel>>) -> Seq<char> {
    spec_render_rows(rows, 0)
}

/// Appends `pad` spaces to the buffer.
fn push_spaces(buffer: &mut String, pad: usize)
    ensures
        final(buffer)@ == old(buffer)@ + spaces(pad as nat),
{
    let mut k: usize = 0;
    proof {
        assert(old(buffer)@ + spaces(0) =~= old(buffer)@);
    }
    while k < pad
        invariant
            k <= pad,
            buffer@ == old(buffer)@ + spaces(k as nat),
        decreases pad - k,
    {
        crate::strutil::push_char(buffer, ' ');
        k = k + 1;
        proof {
            assert(old(buffer)@ + spaces((k - 1) as nat).push(' ') =~= old(buffer)@ + spaces(
                k as nat,
            ));
        }
    }
}

/// Renders the table into the buffer, appending to what is there.
pub fn render_table(table: &Table, buffer: &mut String)
    ensures
        final(buffer)@ == old(buffer)@ + spec_render_table(table@),
{
    let ghost tm = table@;
    let nrows: usize = table.rows.len();
    // first pass: column widths
    let mut widths: Vec<usize> = Vec::new();
    let mut i: usize = 0;
    proof {
        assert(tm.subrange(0, 0) =~= Seq::<Seq<CellModel>>::empty());
    }
    while i < nrows
        invariant
            i <= nrows,
            nrows == tm.len(),
            tm == table@,
            forall|j: int|
                0 <= j < widths@.len() ==> widths@[j] as nat == col_width(
                    tm.subrange(0, i as int),
                    j,
                ),
            forall|j: int| j >= widths@.len() ==> col_width(tm.subrange(0, i as int), j) == 0,
            forall|r: int| 0 <= r < i ==> tm[r].len() <= widths@.len(),
        decreases nrows - i,
    {
        let row = &table.rows[i];
        let ncells: usize = row.cells.len();
        let ghost prev = tm.subrange(0, i as int);
        let ghost cur = tm.subrange(0, i + 1);
        proof {
            assert(cur.drop_last() =~= prev);
            assert(cur.last() == tm[i as int]);
            assert(tm[i as int].len() == row.cells@.len());
        }
        proof {
            assert(cur =~= prev.push(tm[i as int]));
            assert forall|c: int| true implies col_width(cur, c) == ({
                let w = col_width(prev, c);
                let lw: nat = if 0 <= c < tm[i as int].len() {
                    tm[i as int][c].text.len()
                } else {
                    0
                };
                if lw > w {
                    lw
                } else {
                    w
                }
            }) by {
                lemma_col_width_last(prev, tm[i as int], c);
            }
        }
        let mut j: usize = 0;
        while j < ncells
            invariant
                j <= ncells,
                i < nrows,
                nrows == tm.len(),
                tm == table@,
                ncells == tm[i as int].len(),
                row == &table.rows[i as int],
                tm.subrange(0, i as int) == prev,
                tm.subrange(0, i + 1) == cur,
                cur.drop_last() == prev,
                cur.last() == tm[i as int],
                cur == prev.push(tm[i as int]),
                forall|c: int|
                    col_width(cur, c) == ({
                        let w = col_width(prev, c);
                        let lw: nat = if 0 <= c < tm[i as int].len() {
                            tm[i as int][c].text.len()
                        } else {
                            0
                        };
                        if lw > w {
                            lw
                        } else {
                            w
                        }
                    }),
                forall|c: int|
                    0 <= c < widths@.len() ==> widths@[c] as nat == (if c < j {
                        col_width(cur, c)
                    } else {
                        col_width(prev, c)
                    }),
                forall|c: int| c >= widths@.len() && c >= ncells ==> col_width(cur, c) == 0,
                forall|c: int| c >= widths@.len() ==> col_width(prev, c) == 0,
                widths@.len() >= j,
                forall|r: int| 0 <= r < i ==> tm[r].len() <= widths@.len(),
            decreases ncells - j,
        {
            let tl: usize = row.cells[j].text.as_str().unicode_len();
            proof {
                assert(tm[i as int][j as int].text.len() == tl as nat);
            }
            if j < widths.len() {
                if widths[j] < tl {
                    widths[j] = tl;
                }
            } else {
                widths.push(tl);
            }
            j = j + 1;
        }
        proof {
            assert(forall|c: int|
                0 <= c < widths@.len() ==> widths@[c] as nat == col_width(cur, c));
            assert(forall|c: int| c >= widths@.len() ==> col_width(cur, c) == 0);
        }
        i = i + 1;
    }
    proof {
        assert(tm.subrange(0, nrows as int) =~= tm);
    }
    // second pass: render
    let ghost start = buffer@;
    let mut i: usize = 0;
    proof {
        assert(start + Seq::<char>::empty() =~= start);
    }
    while i < nrows
        invariant
            i <= nrows,
            nrows == tm.len(),
            tm == table@,
            forall|j: int| 0 <= j < widths@.len() ==> widths@[j] as nat == col_width(tm, j),
            forall|r: int| 0 <= r < nrows ==> tm[r].len() <= widths@.len(),
            start + spec_render_table(tm) == buffer@ + spec_render_rows(tm, i as int),
        decreases nrows - i,
    {
        let row = &table.rows[i];
        let ncells: usize = row.cells.len();
        let ghost row_start = buffer@;
        let mut j: usize = 0;
        while j < ncells
            invariant
                j <= ncells,
                i < nrows,
                nrows == tm.len(),
                tm == table@,
                ncells == tm[i as int].len(),
                row == &table.rows[i as int],
                forall|c: int| 0 <= c < widths@.len() ==> widths@[c] as nat == col_width(tm, c),
                forall|r: int| 0 <= r < nrows ==> tm[r].len() <= widths@.len(),
                row_start + spec_render_cells(tm, i as int, 0) == buffer@ + spec_render_cells(
                    tm,
                    i as int,
                    j as int,
                ),
            decreases ncells - j,
        {
            let ghost c_model = tm[i as int][j as int];
            let tl: usize = row.cells[j].text.as_str().unicode_len();
            let w: usize = widths[j];
            proof {
                assert(c_model.text.len() == tl as nat);
                lemma_col_width_ge(tm, i as int, j as int);
            }
            let base_pad: usize = w - tl;
            let extra: usize = if j + 1 < ncells {
                2
            } else {
                0
            };
            proof {
                assert(cell_pad(tm, i as int, j as int) == (base_pad + extra) as nat);
                lemma_spaces_add(base_pad as nat, extra as nat);
            }
            match row.cells[j].align {
                Align::Left => {
                    buffer.append(row.cells[j].text.as_str());
                    push_spaces(buffer, base_pad);
                    push_spaces(buffer, extra);
                },
                Align::Right => {
                    push_spaces(buffer, base_pad);
                    push_spaces(buffer, extra);
                    buffer.append(row.cells[j].text.as_str());
                },
            }
            proof {
                assert(spec_render_cells(tm, i as int, j as int) == spec_render_cell(
                    c_model,
                    cell_pad(tm, i as int, j as int),
                ) + spec_render_cells(tm, i as int, j + 1));
                assert(spaces((base_pad + extra) as nat) =~= spaces(base_pad as nat) + spaces(
                    extra as nat,
                ));
                assert(row_start + spec_render_cells(tm, i as int, 0) =~= buffer@
                    + spec_render_cells(tm, i as int, j + 1));
            }
            j = j + 1;
        }
        crate::strutil::push_char(buffer, '\n');
        proof {
            assert(spec_render_cells(tm, i as int, ncells as int) =~= seq!['\n']);
            assert(buffer@ =~= row_start + spec_render_cells(tm, i as int, 0));
            assert(spec_render_rows(tm, i as int) == spec_render_cells(tm, i as int, 0)
                + spec_render_rows(tm, i + 1));
            assert(start + spec_render_table(tm) =~= buffer@ + spec_render_rows(tm, i + 1));
        }
        i = i + 1;
    }
    proof {
        assert(spec_render_rows(tm, nrows as int) =~= Seq::<char>::empty());
        assert(buffer@ =~= start + spec_render_table(tm));
    }
}

} // verus!
