//! The row trace: one flat array of field elements per column.
//!
//! A region has a fixed number of rows. Its columns are of two kinds: fixed
//! columns, whose cells belong to the circuit, and advice columns, whose cells
//! the prover supplies. A cell that was never assigned holds zero, and so does
//! every cell read outside the region.

use crate::field::Fe;
use vstd::prelude::*;

verus! {

/// What a region holds, as numbers: `advice[column][row]` and
/// `fixed[column][row]`.
pub struct Trace {
    pub rows: nat,
    pub advice: Seq<Seq<nat>>,
    pub fixed: Seq<Seq<nat>>,
}

impl Trace {
    /// The cell of an advice column at a row; zero outside the region.
    pub open spec fn advice_at(&self, column: int, row: int) -> nat {
        if 0 <= column < self.advice.len() && 0 <= row < self.advice[column].len() {
            self.advice[column][row]
        } else {
            0
        }
    }

    /// The cell of a fixed column at a row; zero outside the region.
    pub open spec fn fixed_at(&self, column: int, row: int) -> nat {
        if 0 <= column < self.fixed.len() && 0 <= row < self.fixed[column].len() {
            self.fixed[column][row]
        } else {
            0
        }
    }

    /// The trace after one advice cell has been written.
    pub open spec fn with_advice(self, column: int, row: int, value: nat) -> Trace {
        Trace { advice: self.advice.update(column, self.advice[column].update(row, value)), ..self }
    }

    /// The trace after one fixed cell has been written.
    pub open spec fn with_fixed(self, column: int, row: int, value: nat) -> Trace {
        Trace { fixed: self.fixed.update(column, self.fixed[column].update(row, value)), ..self }
    }

    /// Writing an advice cell changes that cell and nothing else.
    pub proof fn lemma_with_advice(self, column: int, row: int, value: nat)
        requires
            0 <= column < self.advice.len(),
            0 <= row < self.advice[column].len(),
        ensures
            self.with_advice(column, row, value).same_shape(self),
            self.with_advice(column, row, value).fixed == self.fixed,
            forall|c: int, r: int|
                #[trigger] self.with_advice(column, row, value).advice_at(c, r) == if c == column && r
                    == row {
                    value
                } else {
                    self.advice_at(c, r)
                },
            forall|c: int, r: int| #[trigger]
                self.with_advice(column, row, value).fixed_at(c, r) == self.fixed_at(c, r),
    {
    }

    /// Writing a fixed cell changes that cell and nothing else.
    pub proof fn lemma_with_fixed(self, column: int, row: int, value: nat)
        requires
            0 <= column < self.fixed.len(),
            0 <= row < self.fixed[column].len(),
        ensures
            self.with_fixed(column, row, value).same_shape(self),
            self.with_fixed(column, row, value).advice == self.advice,
            forall|c: int, r: int|
                #[trigger] self.with_fixed(column, row, value).fixed_at(c, r) == if c == column && r
                    == row {
                    value
                } else {
                    self.fixed_at(c, r)
                },
            forall|c: int, r: int| #[trigger]
                self.with_fixed(column, row, value).advice_at(c, r) == self.advice_at(c, r),
    {
    }

    /// Two traces have the same numbers of rows and of columns.
    pub open spec fn same_shape(self, other: Trace) -> bool {
        &&& self.rows == other.rows
        &&& self.advice.len() == other.advice.len()
        &&& self.fixed.len() == other.fixed.len()
    }

    /// Every cell of a well-formed trace is a canonical field element, also
    /// where it is read outside the region.
    pub proof fn lemma_cell_bound(&self, column: int, row: int)
        requires
            self.wf(),
        ensures
            self.advice_at(column, row) < crate::field::modulus(),
            self.fixed_at(column, row) < crate::field::modulus(),
    {
        if 0 <= column < self.advice.len() && 0 <= row < self.advice[column].len() {
            assert(self.advice[column][row] < crate::field::modulus());
        }
        if 0 <= column < self.fixed.len() && 0 <= row < self.fixed[column].len() {
            assert(self.fixed[column][row] < crate::field::modulus());
        }
    }

    /// Every column has one cell per row, and every cell is a canonical field
    /// element.
    pub open spec fn wf(&self) -> bool {
        &&& forall|c: int| 0 <= c < self.advice.len() ==> (#[trigger] self.advice[c]).len() == self.rows
        &&& forall|c: int| 0 <= c < self.fixed.len() ==> (#[trigger] self.fixed[c]).len() == self.rows
        &&& forall|c: int, r: int|
            0 <= c < self.advice.len() && 0 <= r < self.rows ==> #[trigger] self.advice[c][r]
                < crate::field::modulus()
        &&& forall|c: int, r: int|
            0 <= c < self.fixed.len() && 0 <= r < self.rows ==> #[trigger] self.fixed[c][r]
                < crate::field::modulus()
    }

    /// The trace of the given shape in which every cell is zero.
    pub open spec fn zeroed(num_advice: nat, num_fixed: nat, rows: nat) -> Trace {
        Trace {
            rows,
            advice: Seq::new(num_advice, |c: int| Seq::new(rows, |r: int| 0nat)),
            fixed: Seq::new(num_fixed, |c: int| Seq::new(rows, |r: int| 0nat)),
        }
    }
}

/// The cells of one column, as numbers.
pub open spec fn column_view(column: Seq<Fe>) -> Seq<nat> {
    Seq::new(column.len(), |r: int| column[r]@)
}

/// The cells of a family of columns, as numbers.
pub open spec fn columns_view(columns: Seq<Vec<Fe>>) -> Seq<Seq<nat>> {
    Seq::new(columns.len(), |c: int| column_view(columns[c]@))
}

/// The cells of a circuit, column by column.
pub struct Region {
    rows: usize,
    advice: Vec<Vec<Fe>>,
    fixed: Vec<Vec<Fe>>,
}

impl View for Region {
    type V = Trace;

    closed spec fn view(&self) -> Trace {
        Trace {
            rows: self.rows as nat,
            advice: columns_view(self.advice@),
            fixed: columns_view(self.fixed@),
        }
    }
}

/// A column of `rows` zero cells.
fn zero_column(rows: usize) -> (column: Vec<Fe>)
    ensures
        column_view(column@) =~= Seq::new(rows as nat, |r: int| 0nat),
{
    let mut column: Vec<Fe> = Vec::new();
    let mut r: usize = 0;
    while r < rows
        invariant
            r <= rows,
            column.len() == r,
            forall|i: int| 0 <= i < r ==> (#[trigger] column[i])@ == 0,
        decreases rows - r,
    {
        column.push(Fe::zero());
        r = r + 1;
    }
    column
}

/// A family of `count` columns of `rows` zero cells each.
fn zero_columns(count: usize, rows: usize) -> (columns: Vec<Vec<Fe>>)
    ensures
        columns_view(columns@) =~= Seq::new(count as nat, |c: int| Seq::new(rows as nat, |r: int| 0nat)),
{
    let mut columns: Vec<Vec<Fe>> = Vec::new();
    let mut c: usize = 0;
    while c < count
        invariant
            c <= count,
            columns.len() == c,
            forall|i: int|
                0 <= i < c ==> column_view((#[trigger] columns[i])@) =~= Seq::new(
                    rows as nat,
                    |r: int| 0nat,
                ),
        decreases count - c,
    {
        columns.push(zero_column(rows));
        c = c + 1;
    }
    columns
}

impl Region {
    /// What the region holds.
    pub open spec fn wf(&self) -> bool {
        self@.wf()
    }

    /// A cell outside the rows of the region reads as zero.
    pub proof fn lemma_outside(&self, column: int, row: int)
        requires
            self.wf(),
            row < 0 || row >= self@.rows,
        ensures
            self@.advice_at(column, row) == 0,
            self@.fixed_at(column, row) == 0,
    {
        if 0 <= column < self@.advice.len() {
            assert(self@.advice[column].len() == self@.rows);
        }
        if 0 <= column < self@.fixed.len() {
            assert(self@.fixed[column].len() == self@.rows);
        }
    }

    /// A region of the given shape in which no cell has been assigned.
    pub fn new(num_advice: usize, num_fixed: usize, rows: usize) -> (region: Region)
        ensures
            region.wf(),
            region@ == Trace::zeroed(num_advice as nat, num_fixed as nat, rows as nat),
    {
        let region = Region {
            rows,
            advice: zero_columns(num_advice, rows),
            fixed: zero_columns(num_fixed, rows),
        };
        region
    }

    /// The number of rows.
    pub fn rows(&self) -> (n: usize)
        ensures
            n == self@.rows,
    {
        self.rows
    }

    /// The number of advice columns.
    pub fn num_advice(&self) -> (n: usize)
        ensures
            n == self@.advice.len(),
    {
        self.advice.len()
    }

    /// The number of fixed columns.
    pub fn num_fixed(&self) -> (n: usize)
        ensures
            n == self@.fixed.len(),
    {
        self.fixed.len()
    }

    /// Reads an advice cell.
    pub fn advice(&self, column: usize, row: usize) -> (value: Fe)
        requires
            self.wf(),
        ensures
            value.wf(),
            value@ == self@.advice_at(column as int, row as int),
    {
        if column < self.advice.len() && row < self.rows {
            assert(self@.advice[column as int].len() == self.rows);
            assert(self@.advice[column as int][row as int] < crate::field::modulus());
            self.advice[column][row]
        } else {
            assert(column < self.advice.len() ==> self@.advice[column as int].len() == self.rows);
            Fe::zero()
        }
    }

    /// Reads a fixed cell.
    pub fn fixed(&self, column: usize, row: usize) -> (value: Fe)
        requires
            self.wf(),
        ensures
            value.wf(),
            value@ == self@.fixed_at(column as int, row as int),
    {
        if column < self.fixed.len() && row < self.rows {
            assert(self@.fixed[column as int].len() == self.rows);
            assert(self@.fixed[column as int][row as int] < crate::field::modulus());
            self.fixed[column][row]
        } else {
            assert(column < self.fixed.len() ==> self@.fixed[column as int].len() == self.rows);
            Fe::zero()
        }
    }

    /// Writes an advice cell.
    pub fn assign_advice(&mut self, column: usize, row: usize, value: Fe)
        requires
            old(self).wf(),
            value.wf(),
            column < old(self)@.advice.len(),
            row < old(self)@.rows,
        ensures
            final(self).wf(),
            final(self)@ == old(self)@.with_advice(column as int, row as int, value@),
            final(self)@.same_shape(old(self)@),
            final(self)@.fixed == old(self)@.fixed,
            forall|c: int, r: int| #[trigger] final(self)@.fixed_at(c, r) == old(self)@.fixed_at(c, r),
            forall|c: int, r: int|
                #[trigger] final(self)@.advice_at(c, r) == if c == column && r == row {
                    value@
                } else {
                    old(self)@.advice_at(c, r)
                },
    {
        proof {
            assert(old(self)@.advice[column as int].len() == old(self)@.rows);
            old(self)@.lemma_with_advice(column as int, row as int, value@);
        }
        assert(self@.advice[column as int].len() == self.rows);
        self.advice[column][row] = value;
        assert(self@.advice =~~= old(self)@.advice.update(
            column as int,
            old(self)@.advice[column as int].update(row as int, value@),
        ));
        assert(self@.fixed =~~= old(self)@.fixed);
    }

    /// Writes a fixed cell.
    pub fn assign_fixed(&mut self, column: usize, row: usize, value: Fe)
        requires
            old(self).wf(),
            value.wf(),
            column < old(self)@.fixed.len(),
            row < old(self)@.rows,
        ensures
            final(self).wf(),
            final(self)@ == old(self)@.with_fixed(column as int, row as int, value@),
            final(self)@.same_shape(old(self)@),
            final(self)@.advice == old(self)@.advice,
            forall|c: int, r: int| #[trigger] final(self)@.advice_at(c, r) == old(self)@.advice_at(c, r),
            forall|c: int, r: int|
                #[trigger] final(self)@.fixed_at(c, r) == if c == column && r == row {
                    value@
                } else {
                    old(self)@.fixed_at(c, r)
                },
    {
        proof {
            assert(old(self)@.fixed[column as int].len() == old(self)@.rows);
            old(self)@.lemma_with_fixed(column as int, row as int, value@);
        }
        assert(self@.fixed[column as int].len() == self.rows);
        self.fixed[column][row] = value;
        assert(self@.fixed =~~= old(self)@.fixed.update(
            column as int,
            old(self)@.fixed[column as int].update(row as int, value@),
        ));
        assert(self@.advice =~~= old(self)@.advice);
    }
}

} // verus!
