//! The table of hashes.
//!
//! The circuit does not compute a hash. It looks a triple of a left input, a
//! right input and their hash up in a table that is filled from hashes computed
//! elsewhere.

use crate::column::{AdviceColumn, FixedColumn};
use crate::constraint_builder::{zip, ConstraintBuilder, LookupView};
use crate::constraint_system::ConstraintSystem;
use crate::field::Fe;
use crate::operations::all_wf;
use crate::query::{BinaryQuery, Query};
use crate::region::{Region, Trace};
use vstd::prelude::*;

verus! {

/// The columns of the table of hashes, and the hash of the pair of zeros.
#[derive(Clone, Copy, Debug)]
pub struct PoseidonTable {
    /// One at the rows that hold a hash.
    pub q_enable: FixedColumn,
    /// The left input.
    pub left: AdviceColumn,
    /// The right input.
    pub right: AdviceColumn,
    /// The hash of the two inputs.
    pub hash: AdviceColumn,
    /// Zero at the rows of hashes of two inputs.
    pub control: AdviceColumn,
    /// One at the first row of a hash.
    pub head_mark: AdviceColumn,
    /// The hash of the pair of zeros.
    pub zero_hash: Fe,
}

/// The left inputs of a list of hashes.
pub open spec fn lefts(traces: Seq<(Fe, Fe, Fe)>) -> Seq<Fe> {
    Seq::new(traces.len(), |i: int| traces[i].0)
}

/// The right inputs of a list of hashes.
pub open spec fn rights(traces: Seq<(Fe, Fe, Fe)>) -> Seq<Fe> {
    Seq::new(traces.len(), |i: int| traces[i].1)
}

/// The hashes of a list of hashes.
pub open spec fn hashes(traces: Seq<(Fe, Fe, Fe)>) -> Seq<Fe> {
    Seq::new(traces.len(), |i: int| traces[i].2)
}

/// An advice cell after the table has been loaded with `traces` and room for
/// `size` hashes: the hashes from row 0 on, then the hash of the pair of zeros,
/// and a row of zeros at row `size`.
pub open spec fn poseidon_cell(
    table: PoseidonTable,
    before: Trace,
    traces: Seq<(Fe, Fe, Fe)>,
    size: int,
    column: int,
    row: int,
) -> nat {
    let own = column == table.left.0 || column == table.right.0 || column == table.hash.0 || column
        == table.control.0 || column == table.head_mark.0;
    if own && row == size {
        0
    } else if own && 0 <= row <= traces.len() {
        if column == table.left.0 {
            if row < traces.len() {
                traces[row].0@
            } else {
                0
            }
        } else if column == table.right.0 {
            if row < traces.len() {
                traces[row].1@
            } else {
                0
            }
        } else if column == table.hash.0 {
            if row < traces.len() {
                traces[row].2@
            } else {
                table.zero_hash@
            }
        } else if column == table.control.0 {
            0
        } else {
            1
        }
    } else {
        before.advice_at(column, row)
    }
}

/// A fixed cell after the table has been loaded: the table is enabled at the
/// rows of the hashes, at the row of the hash of the pair of zeros, and up to
/// row `size`.
pub open spec fn poseidon_fixed_cell(
    table: PoseidonTable,
    before: Trace,
    count: int,
    size: int,
    column: int,
    row: int,
) -> nat {
    if column == table.q_enable.0 && 0 <= row && (row <= count || row < size) {
        1
    } else {
        before.fixed_at(column, row)
    }
}

/// The pairs of the lookup of a hash: where `enable` holds, the row
/// `(1, hash, left, right, 0, 1)` is looked up, and elsewhere the row of the
/// hash of the pair of zeros.
pub open spec fn poseidon_pairs(
    table: PoseidonTable,
    enable: BinaryQuery,
    left: Query,
    right: Query,
    hash: Query,
) -> Seq<(Query, Query)> {
    let zero = Query::Constant(Fe::lit(0));
    let one = Query::Constant(Fe::lit(1));
    seq![
        (enable.spec_select(one, one), Query::Fixed(table.q_enable.0, 0)),
        (enable.spec_select(hash, Query::Constant(table.zero_hash)), Query::Advice(table.hash.0, 0)),
        (enable.spec_select(left, zero), Query::Advice(table.left.0, 0)),
        (enable.spec_select(right, zero), Query::Advice(table.right.0, 0)),
        (enable.spec_select(zero, zero), Query::Advice(table.control.0, 0)),
        (enable.spec_select(one, one), Query::Advice(table.head_mark.0, 0)),
    ]
}

impl PoseidonTable {
    /// The six columns are different columns of the region.
    pub open spec fn fits(&self, trace: Trace) -> bool {
        &&& self.q_enable.0 < trace.fixed.len()
        &&& self.left.0 < trace.advice.len()
        &&& self.right.0 < trace.advice.len()
        &&& self.hash.0 < trace.advice.len()
        &&& self.control.0 < trace.advice.len()
        &&& self.head_mark.0 < trace.advice.len()
        &&& self.left.0 != self.right.0
        &&& self.left.0 != self.hash.0
        &&& self.left.0 != self.control.0
        &&& self.left.0 != self.head_mark.0
        &&& self.right.0 != self.hash.0
        &&& self.right.0 != self.control.0
        &&& self.right.0 != self.head_mark.0
        &&& self.hash.0 != self.control.0
        &&& self.hash.0 != self.head_mark.0
        &&& self.control.0 != self.head_mark.0
        &&& self.zero_hash.wf()
    }

    /// The table over the given columns: the advice columns are, in this order,
    /// the left input, the right input, the hash, the control and the head
    /// mark.
    pub fn from_columns(q_enable: FixedColumn, columns: [AdviceColumn; 5], zero_hash: Fe) -> (table:
        PoseidonTable)
        ensures
            table == (PoseidonTable {
                q_enable,
                left: columns[0],
                right: columns[1],
                hash: columns[2],
                control: columns[3],
                head_mark: columns[4],
                zero_hash,
            }),
    {
        PoseidonTable {
            left: columns[0],
            right: columns[1],
            hash: columns[2],
            control: columns[3],
            head_mark: columns[4],
            q_enable,
            zero_hash,
        }
    }

    /// Allocates the columns of the table: five advice columns, then one fixed
    /// column.
    pub fn dev_configure(cs: &mut ConstraintSystem, cb: &mut ConstraintBuilder, zero_hash: Fe) -> (table:
        PoseidonTable)
        requires
            old(cs).advice_count() + 5 <= usize::MAX,
            old(cs).fixed_count() + 1 <= usize::MAX,
        ensures
            table == (PoseidonTable {
                q_enable: FixedColumn(old(cs).fixed_count() as usize),
                left: AdviceColumn(old(cs).advice_count() as usize),
                right: AdviceColumn((old(cs).advice_count() + 1) as usize),
                hash: AdviceColumn((old(cs).advice_count() + 2) as usize),
                control: AdviceColumn((old(cs).advice_count() + 3) as usize),
                head_mark: AdviceColumn((old(cs).advice_count() + 4) as usize),
                zero_hash,
            }),
            final(cs).advice_count() == old(cs).advice_count() + 5,
            final(cs).fixed_count() == old(cs).fixed_count() + 1,
            final(cs).gates() == old(cs).gates(),
            final(cs).lookups() == old(cs).lookups(),
            final(cb).gates() == old(cb).gates(),
            final(cb).lookups() == old(cb).lookups(),
    {
        let (_selectors, _fixed, advice) = cb.build_columns::<0, 0, 5>(cs);
        let q_enable = FixedColumn(cs.fixed_column());
        PoseidonTable {
            left: advice[0],
            right: advice[1],
            hash: advice[2],
            control: advice[3],
            head_mark: advice[4],
            q_enable,
            zero_hash,
        }
    }

    /// Loads the table: the given hashes from row 0 on, behind them the hash of
    /// the pair of zeros, the table enabled at those rows and up to row `size`,
    /// and a row of zeros at row `size`.
    pub fn dev_load(&self, region: &mut Region, hash_traces: &Vec<(Fe, Fe, Fe)>, size: usize)
        requires
            old(region).wf(),
            self.fits(old(region)@),
            all_wf(lefts(hash_traces@)),
            all_wf(rights(hash_traces@)),
            all_wf(hashes(hash_traces@)),
            size >= hash_traces.len(),
            size < old(region)@.rows,
        ensures
            final(region).wf(),
            final(region)@.same_shape(old(region)@),
            forall|c: int, r: int|
                #[trigger] final(region)@.advice_at(c, r) == poseidon_cell(
                    *self,
                    old(region)@,
                    hash_traces@,
                    size as int,
                    c,
                    r,
                ),
            forall|c: int, r: int|
                #[trigger] final(region)@.fixed_at(c, r) == poseidon_fixed_cell(
                    *self,
                    old(region)@,
                    hash_traces.len() as int,
                    size as int,
                    c,
                    r,
                ),
    {
        let count = hash_traces.len();
        let rows = region.rows();
        let mut offset: usize = 0;
        while offset <= count
            invariant
                offset <= count + 1,
                count == hash_traces.len(),
                size >= count,
                size < old(region)@.rows,
                rows == old(region)@.rows,
                self.fits(old(region)@),
                all_wf(lefts(hash_traces@)),
                all_wf(rights(hash_traces@)),
                all_wf(hashes(hash_traces@)),
                region.wf(),
                region@.same_shape(old(region)@),
                forall|c: int, r: int|
                    r < offset ==> #[trigger] region@.advice_at(c, r) == poseidon_cell(
                        *self,
                        old(region)@,
                        hash_traces@,
                        -1,
                        c,
                        r,
                    ),
                forall|c: int, r: int|
                    r >= offset ==> #[trigger] region@.advice_at(c, r) == old(region)@.advice_at(c, r),
                forall|c: int, r: int|
                    #[trigger] region@.fixed_at(c, r) == if c == self.q_enable.0 && 0 <= r < offset {
                        1
                    } else {
                        old(region)@.fixed_at(c, r)
                    },
            decreases count + 1 - offset,
        {
            let (left, right, hash) = if offset < count {
                assert(lefts(hash_traces@)[offset as int].wf());
                assert(rights(hash_traces@)[offset as int].wf());
                assert(hashes(hash_traces@)[offset as int].wf());
                hash_traces[offset]
            } else {
                (Fe::zero(), Fe::zero(), self.zero_hash)
            };
            self.left.assign(region, offset, left);
            self.right.assign(region, offset, right);
            self.hash.assign(region, offset, hash);
            self.control.assign(region, offset, Fe::zero());
            self.head_mark.assign(region, offset, Fe::one());
            self.q_enable.assign(region, offset, Fe::one());
            offset = offset + 1;
        }
        let mut offset: usize = count;
        while offset < size
            invariant
                count <= offset <= size,
                count == hash_traces.len(),
                size < old(region)@.rows,
                self.fits(old(region)@),
                region.wf(),
                region@.same_shape(old(region)@),
                forall|c: int, r: int|
                    #[trigger] region@.advice_at(c, r) == poseidon_cell(
                        *self,
                        old(region)@,
                        hash_traces@,
                        -1,
                        c,
                        r,
                    ),
                forall|c: int, r: int|
                    #[trigger] region@.fixed_at(c, r) == if c == self.q_enable.0 && 0 <= r && (r <= count
                        || r < offset) {
                        1
                    } else {
                        old(region)@.fixed_at(c, r)
                    },
            decreases size - offset,
        {
            self.q_enable.assign(region, offset, Fe::one());
            offset = offset + 1;
        }
        // a row of zeros, for lookups that are switched off
        self.hash.assign(region, size, Fe::zero());
        self.left.assign(region, size, Fe::zero());
        self.right.assign(region, size, Fe::zero());
        self.control.assign(region, size, Fe::zero());
        self.head_mark.assign(region, size, Fe::zero());
    }

    /// The row that a lookup reads where it is switched off: the row of the
    /// hash of the pair of zeros, `(1, zero_hash, 0, 0, 0, 1)`.
    pub fn default_lookup(&self) -> (row: Vec<Query>)
        ensures
            row@ == seq![
                Query::Constant(Fe::lit(1)),
                Query::Constant(self.zero_hash),
                Query::Constant(Fe::lit(0)),
                Query::Constant(Fe::lit(0)),
                Query::Constant(Fe::lit(0)),
                Query::Constant(Fe::lit(1)),
            ],
    {
        let mut row: Vec<Query> = Vec::new();
        row.push(Query::one());
        row.push(Query::constant(self.zero_hash));
        row.push(Query::zero());
        row.push(Query::zero());
        row.push(Query::zero());
        row.push(Query::one());
        assert(row@ =~= seq![
            Query::Constant(Fe::lit(1)),
            Query::Constant(self.zero_hash),
            Query::Constant(Fe::lit(0)),
            Query::Constant(Fe::lit(0)),
            Query::Constant(Fe::lit(0)),
            Query::Constant(Fe::lit(1)),
        ]);
        row
    }

    /// Declares that `hash` is the hash of `left` and `right` wherever `enable`
    /// holds: the row `(1, hash, left, right, 0, 1)` must be a row of the
    /// table there, and the row of the hash of the pair of zeros elsewhere.
    pub fn lookup(
        &self,
        cb: &mut ConstraintBuilder,
        name: &'static str,
        enable: BinaryQuery,
        left: Query,
        right: Query,
        hash: Query,
    )
        ensures
            final(cb).gates() == old(cb).gates(),
            final(cb).lookups() == old(cb).lookups().push(
                LookupView { name: name@, pairs: poseidon_pairs(*self, enable, left, right, hash) },
            ),
    {
        let mut default = self.default_lookup();
        let head_mark = default.pop().unwrap();
        let control = default.pop().unwrap();
        let right_zero = default.pop().unwrap();
        let left_zero = default.pop().unwrap();
        let zero_hash = default.pop().unwrap();
        let enabled = default.pop().unwrap();
        let mut inputs: Vec<Query> = Vec::new();
        inputs.push(enable.clone().select(Query::one(), enabled));
        inputs.push(enable.clone().select(hash, zero_hash));
        inputs.push(enable.clone().select(left, left_zero));
        inputs.push(enable.clone().select(right, right_zero));
        inputs.push(enable.clone().select(Query::zero(), control));
        inputs.push(enable.select(Query::one(), head_mark));
        let mut table: Vec<Query> = Vec::new();
        table.push(self.q_enable.current());
        table.push(self.hash.current());
        table.push(self.left.current());
        table.push(self.right.current());
        table.push(self.control.current());
        table.push(self.head_mark.current());
        assert(zip(inputs@, table@) =~= poseidon_pairs(*self, enable, left, right, hash));
        cb.add_lookup_2(name, inputs, table);
    }
}

/// Row `t` of the table holds the hash `hash` of `left` and `right`: the table
/// is enabled there, the three cells hold the three values, the control is
/// zero and the head mark is one.
pub open spec fn table_row_holds(
    table: PoseidonTable,
    trace: Trace,
    t: int,
    left: nat,
    right: nat,
    hash: nat,
) -> bool {
    &&& trace.fixed_at(table.q_enable.0 as int, t) == 1
    &&& trace.advice_at(table.hash.0 as int, t) == hash
    &&& trace.advice_at(table.left.0 as int, t) == left
    &&& trace.advice_at(table.right.0 as int, t) == right
    &&& trace.advice_at(table.control.0 as int, t) == 0
    &&& trace.advice_at(table.head_mark.0 as int, t) == 1
}

/// The left input, the right input and the hash that the lookup of a hash
/// reads at a row: the values of the three formulas where `enable` holds, and
/// the pair of zeros with its hash elsewhere.
pub open spec fn looked_up(
    table: PoseidonTable,
    enable: BinaryQuery,
    left: Query,
    right: Query,
    hash: Query,
    trace: Trace,
    row: int,
) -> (nat, nat, nat) {
    if enable.holds_at(trace, row) {
        (left.value_at(trace, row), right.value_at(trace, row), hash.value_at(trace, row))
    } else {
        (0, 0, table.zero_hash@)
    }
}

/// The lookup of a hash succeeds at a row exactly if some row of the table
/// holds the triple that the lookup reads there: the values of the three
/// formulas where `enable` holds, and the hash of the pair of zeros elsewhere.
pub proof fn lemma_hash_lookup(
    table: PoseidonTable,
    name: Seq<char>,
    enable: BinaryQuery,
    left: Query,
    right: Query,
    hash: Query,
    trace: Trace,
    row: int,
)
    requires
        trace.wf(),
        table.zero_hash.wf(),
        enable.0.wf(),
        left.wf(),
        right.wf(),
        hash.wf(),
        enable.is_binary_at(trace, row),
    ensures
        crate::constraint_system::lookup_holds_at(
            LookupView { name, pairs: poseidon_pairs(table, enable, left, right, hash) },
            trace,
            row,
        ) <==> exists|t: int|
            0 <= t < trace.rows && #[trigger] table_row_holds(
                table,
                trace,
                t,
                looked_up(table, enable, left, right, hash, trace, row).0,
                looked_up(table, enable, left, right, hash, trace, row).1,
                looked_up(table, enable, left, right, hash, trace, row).2,
            ),
{
    reveal_with_fuel(Query::value_at, 2);
    reveal_with_fuel(Query::wf, 2);
    let pairs = poseidon_pairs(table, enable, left, right, hash);
    let zero = Query::Constant(Fe::lit(0));
    let one = Query::Constant(Fe::lit(1));
    let on = enable.holds_at(trace, row);
    let l = if on { left.value_at(trace, row) } else { 0 };
    let r = if on { right.value_at(trace, row) } else { 0 };
    let h = if on { hash.value_at(trace, row) } else { table.zero_hash@ };
    enable.lemma_select(one, one, trace, row);
    enable.lemma_select(hash, Query::Constant(table.zero_hash), trace, row);
    enable.lemma_select(left, zero, trace, row);
    enable.lemma_select(right, zero, trace, row);
    enable.lemma_select(zero, zero, trace, row);
    assert(pairs.len() == 6);
    assert forall|t: int| 0 <= t < trace.rows implies (#[trigger] crate::constraint_system::lookup_matches(
        pairs,
        trace,
        row,
        t,
    ) <==> table_row_holds(table, trace, t, l, r, h)) by {
        if crate::constraint_system::lookup_matches(pairs, trace, row, t) {
            assert(pairs[0].0.value_at(trace, row) == pairs[0].1.value_at(trace, t));
            assert(pairs[1].0.value_at(trace, row) == pairs[1].1.value_at(trace, t));
            assert(pairs[2].0.value_at(trace, row) == pairs[2].1.value_at(trace, t));
            assert(pairs[3].0.value_at(trace, row) == pairs[3].1.value_at(trace, t));
            assert(pairs[4].0.value_at(trace, row) == pairs[4].1.value_at(trace, t));
            assert(pairs[5].0.value_at(trace, row) == pairs[5].1.value_at(trace, t));
        }
    }
    let lookup = LookupView { name, pairs };
    let triple = looked_up(table, enable, left, right, hash, trace, row);
    assert(triple == (l, r, h));
    if crate::constraint_system::lookup_holds_at(lookup, trace, row) {
        let t = choose|t: int|
            0 <= t < trace.rows && #[trigger] crate::constraint_system::lookup_matches(
                pairs,
                trace,
                row,
                t,
            );
        assert(table_row_holds(table, trace, t, triple.0, triple.1, triple.2));
    }
    if exists|t: int| 0 <= t < trace.rows && #[trigger] table_row_holds(table, trace, t, l, r, h) {
        let t = choose|t: int| 0 <= t < trace.rows && #[trigger] table_row_holds(table, trace, t, l, r, h);
        assert(crate::constraint_system::lookup_matches(pairs, trace, row, t));
        assert(0 <= t < trace.rows);
        assert(lookup.pairs == pairs);
        assert(crate::constraint_system::lookup_holds_at(lookup, trace, row));
    }
}

} // verus!
