//! The constraints and the witness of trie operations.
//!
//! Each node of an operation's path takes one row. A row holds the old and the
//! new role of the node, its old and new hash, a path value and a sibling, and
//! four cells that the chip keeps for itself:
//!
//! | cell        | at the first row of an operation | at every later row          |
//! |-------------|----------------------------------|-----------------------------|
//! | `is_first`  | one                              | zero                        |
//! | `root_aux`  | the row's new hash               | the cell above              |
//! | `depth_aux` | one                              | twice the cell above        |
//! | `key_aux`   | `path * depth_aux`               | that, plus the cell above   |
//!
//! A row after a leaf is the first row of the next operation, and there the
//! old hash must be the `root_aux` of the row above: the operations of a batch
//! form one history.

use crate::column::{AdviceColumn, FixedColumn, SelectorColumn};
use crate::constraint_builder::{ConstraintBuilder, GateView, LookupView};
use crate::constraint_system::ConstraintSystem;
use crate::field::{add_mod, fr_add, fr_double, fr_mul, lemma_multiplicative, mul_mod, Fe};
use crate::hash_type::{transitions, type_pairs, HashType, Mappings};
use crate::query::{BinaryQuery, Query};
use crate::region::{Region, Trace};
use vstd::prelude::*;

verus! {

/// The columns that the chip reads and does not own.
#[derive(Clone, Copy, Debug, PartialEq, Eq, Structural)]
pub struct OpColumns {
    /// Switches the gates on at the rows of operations.
    pub s_row: SelectorColumn,
    /// The hash of the sibling node.
    pub sibling: AdviceColumn,
    /// The path bit of a branch, or the rest of the key at a leaf.
    pub path: AdviceColumn,
    /// The role of the node before the update.
    pub old_hash_type: AdviceColumn,
    /// The role of the node after the update.
    pub new_hash_type: AdviceColumn,
    /// The hash of the node before the update.
    pub old_hash: AdviceColumn,
    /// The hash of the node after the update.
    pub new_hash: AdviceColumn,
}

/// The columns that the chip owns.
#[derive(Clone, Copy, Debug, PartialEq, Eq)]
pub struct MPTOpChipConfig {
    /// One at the first row of an operation.
    pub is_first: AdviceColumn,
    /// The root that the current operation leads to.
    pub root_aux: AdviceColumn,
    /// The weight of the current row's path bit.
    pub depth_aux: AdviceColumn,
    /// The key of the current operation, as far as it has been read.
    pub key_aux: AdviceColumn,
    /// The two columns of the type-pairing table.
    pub type_table: (FixedColumn, FixedColumn),
    /// The two columns of the vertical-transition table.
    pub trans_table: (FixedColumn, FixedColumn),
}

/// The columns that the chip allocates when the circuit has `advice` advice
/// columns and `fixed` fixed columns already.
pub open spec fn chip_columns(advice: nat, fixed: nat) -> MPTOpChipConfig {
    MPTOpChipConfig {
        is_first: AdviceColumn(advice as usize),
        key_aux: AdviceColumn((advice + 1) as usize),
        root_aux: AdviceColumn((advice + 2) as usize),
        depth_aux: AdviceColumn((advice + 3) as usize),
        type_table: (FixedColumn(fixed as usize), FixedColumn((fixed + 1) as usize)),
        trans_table: (FixedColumn((fixed + 2) as usize), FixedColumn((fixed + 3) as usize)),
    }
}

/// The constant one, as a formula.
pub open spec fn one() -> Query {
    Query::Constant(Fe::lit(1))
}

/// An advice cell, as a formula.
pub open spec fn cell(column: AdviceColumn, rotation: i32) -> Query {
    Query::Advice(column.0, rotation)
}

/// The product of two formulas, as a formula.
pub open spec fn product(a: Query, b: Query) -> Query {
    Query::Mul(Box::new(a), Box::new(b))
}

/// The sum of two formulas, as a formula.
pub open spec fn sum(a: Query, b: Query) -> Query {
    Query::Add(Box::new(a), Box::new(b))
}

/// The selector of the rows of operations, as a formula.
pub open spec fn active(cols: OpColumns) -> Query {
    Query::Fixed(cols.s_row.0, 0)
}

/// `s_row * is_first`: the first rows of operations.
pub open spec fn at_first(cols: OpColumns, config: MPTOpChipConfig) -> Query {
    product(active(cols), cell(config.is_first, 0))
}

/// `s_row * (1 - is_first)`: the later rows of operations.
pub open spec fn at_later(cols: OpColumns, config: MPTOpChipConfig) -> Query {
    product(active(cols), one().spec_minus(cell(config.is_first, 0)))
}

/// `new_hash_type - Leaf`: zero at a leaf.
pub open spec fn not_leaf(cols: OpColumns) -> Query {
    cell(cols.new_hash_type, 0).spec_minus(Query::Constant(Fe::lit(4)))
}

/// `path * depth_aux - key_aux`.
pub open spec fn key_step(cols: OpColumns, config: MPTOpChipConfig) -> Query {
    product(cell(cols.path, 0), cell(config.depth_aux, 0)).spec_minus(cell(config.key_aux, 0))
}

/// `s_row * ((1 - is_first.next) * is_first.next)`: the flag of the next row
/// is a bit.
pub open spec fn gate_flag_is_bit(cols: OpColumns, config: MPTOpChipConfig) -> Query {
    product(
        active(cols),
        product(one().spec_minus(cell(config.is_first, 1)), cell(config.is_first, 1)),
    )
}

/// `s_row * is_first.next * (new_hash_type - Leaf)`: the flag of the next row
/// is set only below a leaf.
pub open spec fn gate_boundary(cols: OpColumns, config: MPTOpChipConfig) -> Query {
    product(product(active(cols), cell(config.is_first, 1)), not_leaf(cols))
}

/// `s_row * ((1 - path) * path * (new_hash_type - Leaf))`: above a leaf the
/// path is a bit.
pub open spec fn gate_path_bit(cols: OpColumns) -> Query {
    product(
        active(cols),
        product(product(one().spec_minus(cell(cols.path, 0)), cell(cols.path, 0)), not_leaf(cols)),
    )
}

/// `s_row * is_first * (path * depth_aux - key_aux)`.
pub open spec fn gate_key_restarts(cols: OpColumns, config: MPTOpChipConfig) -> Query {
    product(at_first(cols, config), key_step(cols, config))
}

/// `s_row * (1 - is_first) * (key_aux.prev + path * depth_aux - key_aux)`.
pub open spec fn gate_key_accumulates(cols: OpColumns, config: MPTOpChipConfig) -> Query {
    product(at_later(cols, config), sum(cell(config.key_aux, -1i32), key_step(cols, config)))
}

/// `s_row * is_first * (root_aux - new_hash)`.
pub open spec fn gate_root_restarts(cols: OpColumns, config: MPTOpChipConfig) -> Query {
    product(at_first(cols, config), cell(config.root_aux, 0).spec_minus(cell(cols.new_hash, 0)))
}

/// `s_row * (1 - is_first) * (root_aux - root_aux.prev)`.
pub open spec fn gate_root_is_held(cols: OpColumns, config: MPTOpChipConfig) -> Query {
    product(
        at_later(cols, config),
        cell(config.root_aux, 0).spec_minus(cell(config.root_aux, -1i32)),
    )
}

/// `s_row * is_first * (old_hash - root_aux.prev)`.
pub open spec fn gate_continue(cols: OpColumns, config: MPTOpChipConfig) -> Query {
    product(
        at_first(cols, config),
        cell(cols.old_hash, 0).spec_minus(cell(config.root_aux, -1i32)),
    )
}

/// `s_row * is_first * (1 - depth_aux)`.
pub open spec fn gate_depth_restarts(cols: OpColumns, config: MPTOpChipConfig) -> Query {
    product(at_first(cols, config), one().spec_minus(cell(config.depth_aux, 0)))
}

/// `s_row * (1 - is_first) * (depth_aux.prev * 2 - depth_aux)`.
pub open spec fn gate_depth_doubles(cols: OpColumns, config: MPTOpChipConfig) -> Query {
    product(
        at_later(cols, config),
        product(cell(config.depth_aux, -1i32), Query::Constant(Fe::lit(2))).spec_minus(
            cell(config.depth_aux, 0),
        ),
    )
}

/// The ten gates of the chip, in the order of their declaration.
pub open spec fn op_gates(cols: OpColumns, config: MPTOpChipConfig) -> Seq<GateView> {
    seq![
        GateView { name: "is_first is a bit"@, poly: gate_flag_is_bit(cols, config) },
        GateView { name: "a boundary follows a leaf"@, poly: gate_boundary(cols, config) },
        GateView { name: "path is a bit above a leaf"@, poly: gate_path_bit(cols) },
        GateView { name: "key restarts"@, poly: gate_key_restarts(cols, config) },
        GateView { name: "key accumulates"@, poly: gate_key_accumulates(cols, config) },
        GateView { name: "root restarts"@, poly: gate_root_restarts(cols, config) },
        GateView { name: "root is held"@, poly: gate_root_is_held(cols, config) },
        GateView { name: "operations continue"@, poly: gate_continue(cols, config) },
        GateView { name: "depth restarts"@, poly: gate_depth_restarts(cols, config) },
        GateView { name: "depth doubles"@, poly: gate_depth_doubles(cols, config) },
    ]
}

/// `1 - is_first`: zero at the first row of an operation.
pub open spec fn border(config: MPTOpChipConfig) -> Query {
    one().spec_minus(cell(config.is_first, 0))
}

/// The lookup of a role column's step from the row above into the
/// vertical-transition table, masked at the first row of an operation.
pub open spec fn transition_pairs(config: MPTOpChipConfig, roles: AdviceColumn) -> Seq<(Query, Query)> {
    seq![
        (product(border(config), cell(roles, -1i32)), Query::Fixed(config.trans_table.0.0, 0)),
        (product(border(config), cell(roles, 0)), Query::Fixed(config.trans_table.1.0, 0)),
    ]
}

/// The three lookups of the chip, in the order of their declaration.
pub open spec fn op_lookups(cols: OpColumns, config: MPTOpChipConfig) -> Seq<LookupView> {
    seq![
        LookupView {
            name: "old role steps"@,
            pairs: transition_pairs(config, cols.old_hash_type),
        },
        LookupView {
            name: "new role steps"@,
            pairs: transition_pairs(config, cols.new_hash_type),
        },
        LookupView {
            name: "old and new role pair"@,
            pairs: seq![
                (cell(cols.old_hash_type, 0), Query::Fixed(config.type_table.0.0, 0)),
                (cell(cols.new_hash_type, 0), Query::Fixed(config.type_table.1.0, 0)),
            ],
        },
    ]
}

impl MPTOpChipConfig {
    /// The four advice columns of the chip are different columns of the
    /// region, and so are its four fixed columns.
    pub open spec fn fits(&self, trace: Trace) -> bool {
        &&& self.is_first.0 < trace.advice.len()
        &&& self.root_aux.0 < trace.advice.len()
        &&& self.depth_aux.0 < trace.advice.len()
        &&& self.key_aux.0 < trace.advice.len()
        &&& self.is_first.0 != self.root_aux.0
        &&& self.is_first.0 != self.depth_aux.0
        &&& self.is_first.0 != self.key_aux.0
        &&& self.root_aux.0 != self.depth_aux.0
        &&& self.root_aux.0 != self.key_aux.0
        &&& self.depth_aux.0 != self.key_aux.0
        &&& self.type_table.0.0 < trace.fixed.len()
        &&& self.type_table.1.0 < trace.fixed.len()
        &&& self.trans_table.0.0 < trace.fixed.len()
        &&& self.trans_table.1.0 < trace.fixed.len()
        &&& self.type_table.0.0 != self.type_table.1.0
        &&& self.type_table.0.0 != self.trans_table.0.0
        &&& self.type_table.0.0 != self.trans_table.1.0
        &&& self.type_table.1.0 != self.trans_table.0.0
        &&& self.type_table.1.0 != self.trans_table.1.0
        &&& self.trans_table.0.0 != self.trans_table.1.0
    }
}

/// The values of a list of field elements.
pub open spec fn values(v: Seq<Fe>) -> Seq<nat> {
    Seq::new(v.len(), |i: int| v[i]@)
}

/// Every element of a list is canonical.
pub open spec fn all_wf(v: Seq<Fe>) -> bool {
    forall|i: int| 0 <= i < v.len() ==> (#[trigger] v[i]).wf()
}

/// Whether node `i` of an operation starts a run: it is the first node, or the
/// node above it is a leaf.
pub open spec fn run_starts(types: Seq<HashType>, i: int) -> bool {
    i <= 0 || types[i - 1] == HashType::Leaf
}

/// The root of the run that node `i` belongs to: the new hash of the run's
/// first node.
pub open spec fn run_root(types: Seq<HashType>, hashes: Seq<nat>, i: int) -> nat
    decreases i,
{
    if run_starts(types, i) {
        hashes[i]
    } else {
        run_root(types, hashes, i - 1)
    }
}

/// The weight of node `i` in the key of its run: one at the run's first node,
/// and twice the weight above at every other.
pub open spec fn run_depth(types: Seq<HashType>, i: int) -> nat
    decreases i,
{
    if run_starts(types, i) {
        1
    } else {
        add_mod(run_depth(types, i - 1), run_depth(types, i - 1))
    }
}

/// The key of node `i`'s run as far as node `i`: the sum of `path * depth` over
/// the nodes of the run down to it.
pub open spec fn run_key(types: Seq<HashType>, paths: Seq<nat>, i: int) -> nat
    decreases i,
{
    add_mod(
        mul_mod(paths[i], run_depth(types, i)),
        if run_starts(types, i) {
            0
        } else {
            run_key(types, paths, i - 1)
        },
    )
}

/// The flag that stands for a role in `is_first` of the row below.
pub open spec fn leaf_flag(role: HashType) -> nat {
    if role == HashType::Leaf {
        1
    } else {
        0
    }
}

/// An advice cell after the head row has been filled.
pub open spec fn head_cell(
    config: MPTOpChipConfig,
    before: Trace,
    old_hash: nat,
    column: int,
    row: int,
) -> nat {
    if column == config.is_first.0 && (row == 0 || row == 1) {
        1
    } else if column == config.root_aux.0 && row == 0 {
        old_hash
    } else if (column == config.depth_aux.0 || column == config.key_aux.0) && row == 0 {
        0
    } else {
        before.advice_at(column, row)
    }
}

/// An advice cell after the first `done` nodes of an operation have been
/// filled in from row `offset` on.
pub open spec fn aux_cell(
    config: MPTOpChipConfig,
    before: Trace,
    offset: int,
    types: Seq<HashType>,
    hashes: Seq<nat>,
    paths: Seq<nat>,
    done: int,
    column: int,
    row: int,
) -> nat {
    let i = row - offset;
    if column == config.is_first.0 && 1 <= i <= done {
        leaf_flag(types[i - 1])
    } else if column == config.root_aux.0 && 0 <= i < done {
        run_root(types, hashes, i)
    } else if column == config.depth_aux.0 && 0 <= i < done {
        run_depth(types, i)
    } else if column == config.key_aux.0 && 0 <= i < done {
        run_key(types, paths, i)
    } else {
        before.advice_at(column, row)
    }
}

/// The code in a cell of a table of role pairs: the roles of its row, and
/// zero below the last row.
pub open spec fn table_cell(table: Seq<(HashType, HashType)>, second: bool, row: int) -> nat {
    if 0 <= row < table.len() {
        if second {
            table[row].1.code()
        } else {
            table[row].0.code()
        }
    } else {
        0
    }
}

/// A fixed cell after the two tables have been loaded.
pub open spec fn loaded_cell(config: MPTOpChipConfig, before: Trace, column: int, row: int) -> nat {
    if column == config.trans_table.0.0 && 0 <= row < 9 {
        table_cell(transitions(), false, row)
    } else if column == config.trans_table.1.0 && 0 <= row < 9 {
        table_cell(transitions(), true, row)
    } else if column == config.type_table.0.0 && 0 <= row < 5 {
        table_cell(type_pairs(), false, row)
    } else if column == config.type_table.1.0 && 0 <= row < 5 {
        table_cell(type_pairs(), true, row)
    } else {
        before.fixed_at(column, row)
    }
}

/// The chip that constrains and assigns trie operations.
#[derive(Clone, Copy, Debug)]
pub struct MPTOpChip {
    config: MPTOpChipConfig,
}

impl MPTOpChip {
    /// The columns of the chip.
    pub closed spec fn spec_config(&self) -> MPTOpChipConfig {
        self.config
    }

    /// A chip over the given columns.
    pub fn construct(config: MPTOpChipConfig) -> (chip: MPTOpChip)
        ensures
            chip.spec_config() == config,
    {
        MPTOpChip { config }
    }

    /// Allocates the chip's columns and declares its gates and lookups.
    ///
    /// The advice columns are allocated in the order `is_first`, `key_aux`,
    /// `root_aux`, `depth_aux`; the fixed columns are the two of the
    /// type-pairing table, then the two of the vertical-transition table.
    pub fn configure(
        cs: &mut ConstraintSystem,
        cb: &mut ConstraintBuilder,
        s_row: SelectorColumn,
        sibling: AdviceColumn,
        path: AdviceColumn,
        old_hash_type: AdviceColumn,
        new_hash_type: AdviceColumn,
        old_hash: AdviceColumn,
        new_hash: AdviceColumn,
    ) -> (config: MPTOpChipConfig)
        requires
            old(cs).advice_count() + 4 <= usize::MAX,
            old(cs).fixed_count() + 4 <= usize::MAX,
        ensures
            config == chip_columns(old(cs).advice_count(), old(cs).fixed_count()),
            final(cs).advice_count() == old(cs).advice_count() + 4,
            final(cs).fixed_count() == old(cs).fixed_count() + 4,
            final(cs).gates() == old(cs).gates(),
            final(cs).lookups() == old(cs).lookups(),
            final(cb).gates() == old(cb).gates() + op_gates(
                OpColumns { s_row, sibling, path, old_hash_type, new_hash_type, old_hash, new_hash },
                config,
            ),
            final(cb).lookups() == old(cb).lookups() + op_lookups(
                OpColumns { s_row, sibling, path, old_hash_type, new_hash_type, old_hash, new_hash },
                config,
            ),
    {
        let ghost cols = OpColumns {
            s_row,
            sibling,
            path,
            old_hash_type,
            new_hash_type,
            old_hash,
            new_hash,
        };
        let is_first = AdviceColumn(cs.advice_column());
        let key_aux = AdviceColumn(cs.advice_column());
        let root_aux = AdviceColumn(cs.advice_column());
        let depth_aux = AdviceColumn(cs.advice_column());
        let type_table = (FixedColumn(cs.fixed_column()), FixedColumn(cs.fixed_column()));
        let trans_table = (FixedColumn(cs.fixed_column()), FixedColumn(cs.fixed_column()));
        let config = MPTOpChipConfig { is_first, root_aux, depth_aux, key_aux, type_table, trans_table };

        // the step of the old roles
        let mut inputs: Vec<Query> = Vec::new();
        inputs.push(BinaryQuery(is_first.current()).not().0.times(old_hash_type.previous()));
        inputs.push(BinaryQuery(is_first.current()).not().0.times(old_hash_type.current()));
        let mut table: Vec<Query> = Vec::new();
        table.push(trans_table.0.current());
        table.push(trans_table.1.current());
        assert(crate::constraint_builder::zip(inputs@, table@) =~= transition_pairs(
            config,
            old_hash_type,
        ));
        cb.add_lookup_2("old role steps", inputs, table);

        // the step of the new roles
        let mut inputs: Vec<Query> = Vec::new();
        inputs.push(BinaryQuery(is_first.current()).not().0.times(new_hash_type.previous()));
        inputs.push(BinaryQuery(is_first.current()).not().0.times(new_hash_type.current()));
        let mut table: Vec<Query> = Vec::new();
        table.push(trans_table.0.current());
        table.push(trans_table.1.current());
        assert(crate::constraint_builder::zip(inputs@, table@) =~= transition_pairs(
            config,
            new_hash_type,
        ));
        cb.add_lookup_2("new role steps", inputs, table);

        // the pair of the old and the new role
        let mut inputs: Vec<Query> = Vec::new();
        inputs.push(old_hash_type.current());
        inputs.push(new_hash_type.current());
        let mut table: Vec<Query> = Vec::new();
        table.push(type_table.0.current());
        table.push(type_table.1.current());
        assert(crate::constraint_builder::zip(inputs@, table@) =~= op_lookups(cols, config)[2].pairs);
        cb.add_lookup_2("old and new role pair", inputs, table);
        assert(cb.lookups() =~= old(cb).lookups() + op_lookups(cols, config));

        // is_first.next is a bit, and one only below a leaf
        let leaf = HashType::Leaf.to_u64();
        cb.add_constraint(
            "is_first is a bit",
            s_row.current(),
            Query::one().minus(is_first.next()).times(is_first.next()),
        );
        cb.add_constraint(
            "a boundary follows a leaf",
            s_row.current().and(BinaryQuery(is_first.next())),
            new_hash_type.current().minus(Query::from_u64(leaf)),
        );
        // above a leaf the path is a bit
        cb.add_constraint(
            "path is a bit above a leaf",
            s_row.current(),
            Query::one().minus(path.current()).times(path.current()).times(
                new_hash_type.current().minus(Query::from_u64(leaf)),
            ),
        );
        // key = path * depth at a first row, and key.prev more at a later one
        cb.add_constraint(
            "key restarts",
            s_row.current().and(BinaryQuery(is_first.current())),
            path.current().times(depth_aux.current()).minus(key_aux.current()),
        );
        cb.add_constraint(
            "key accumulates",
            s_row.current().and(BinaryQuery(is_first.current()).not()),
            key_aux.previous().plus(
                path.current().times(depth_aux.current()).minus(key_aux.current()),
            ),
        );
        // root = hash at a first row, and root.prev at a later one
        cb.add_constraint(
            "root restarts",
            s_row.current().and(BinaryQuery(is_first.current())),
            root_aux.current().minus(new_hash.current()),
        );
        cb.add_constraint(
            "root is held",
            s_row.current().and(BinaryQuery(is_first.current()).not()),
            root_aux.current().minus(root_aux.previous()),
        );
        // an operation starts from the root that the one before it led to
        cb.add_constraint(
            "operations continue",
            s_row.current().and(BinaryQuery(is_first.current())),
            old_hash.current().minus(root_aux.previous()),
        );
        // depth = 1 at a first row, and twice depth.prev at a later one
        cb.add_constraint(
            "depth restarts",
            s_row.current().and(BinaryQuery(is_first.current())),
            Query::one().minus(depth_aux.current()),
        );
        cb.add_constraint(
            "depth doubles",
            s_row.current().and(BinaryQuery(is_first.current()).not()),
            depth_aux.previous().times(Query::from_u64(2)).minus(depth_aux.current()),
        );
        assert(cb.gates() =~= old(cb).gates() + op_gates(cols, config));
        config
    }

    /// Fills the head row, row 0: zero for the key and the depth, the root
    /// that the first operation starts from, and the flag set, at row 0 and at
    /// row 1, where the first operation starts.
    pub fn fill_heading(&self, region: &mut Region, old_hash: Fe)
        requires
            old(region).wf(),
            old_hash.wf(),
            self.spec_config().fits(old(region)@),
            old(region)@.rows >= 2,
        ensures
            final(region).wf(),
            final(region)@.same_shape(old(region)@),
            final(region)@.fixed == old(region)@.fixed,
            forall|c: int, r: int| #[trigger] final(region)@.fixed_at(c, r) == old(region)@.fixed_at(c, r),
            forall|c: int, r: int|
                #[trigger] final(region)@.advice_at(c, r) == head_cell(
                    self.spec_config(),
                    old(region)@,
                    old_hash@,
                    c,
                    r,
                ),
    {
        self.config.key_aux.assign(region, 0, Fe::zero());
        self.config.depth_aux.assign(region, 0, Fe::zero());
        self.config.root_aux.assign(region, 0, old_hash);
        // the flag is set in the head row too, to keep the lookups quiet there
        self.config.is_first.assign(region, 0, Fe::one());
        self.config.is_first.assign(region, 1, Fe::one());
    }

    /// Fills the chip's cells for one operation, whose first node lies at row
    /// `offset`, and returns the number of rows that the operation takes.
    pub fn fill_aux(
        &self,
        region: &mut Region,
        offset: usize,
        new_hash_types: &Vec<HashType>,
        hash: &Vec<Fe>,
        path: &Vec<Fe>,
    ) -> (filled: usize)
        requires
            old(region).wf(),
            self.spec_config().fits(old(region)@),
            new_hash_types.len() == hash.len(),
            path.len() == hash.len(),
            hash.len() > 0,
            all_wf(hash@),
            all_wf(path@),
            offset + hash.len() < old(region)@.rows,
        ensures
            filled == hash.len(),
            final(region).wf(),
            final(region)@.same_shape(old(region)@),
            final(region)@.fixed == old(region)@.fixed,
            forall|c: int, r: int| #[trigger] final(region)@.fixed_at(c, r) == old(region)@.fixed_at(c, r),
            forall|c: int, r: int|
                #[trigger] final(region)@.advice_at(c, r) == aux_cell(
                    self.spec_config(),
                    old(region)@,
                    offset as int,
                    new_hash_types@,
                    values(hash@),
                    values(path@),
                    hash.len() as int,
                    c,
                    r,
                ),
    {
        let is_first = self.config.is_first;
        let key_aux = self.config.key_aux;
        let root_aux = self.config.root_aux;
        let depth_aux = self.config.depth_aux;
        let ghost types = new_hash_types@;
        let ghost hashes = values(hash@);
        let ghost paths = values(path@);

        let mut cur_root = Fe::zero();
        let mut cur_depth = Fe::zero();
        let mut acc_key = Fe::zero();
        let mut is_first_col = true;
        let rows = region.rows();
        let mut i: usize = 0;
        while i < hash.len()
            invariant
                i <= hash.len(),
                rows == old(region)@.rows,
                new_hash_types.len() == hash.len(),
                path.len() == hash.len(),
                all_wf(hash@),
                all_wf(path@),
                types == new_hash_types@,
                hashes == values(hash@),
                paths == values(path@),
                offset + hash.len() < old(region)@.rows,
                is_first == self.spec_config().is_first,
                key_aux == self.spec_config().key_aux,
                root_aux == self.spec_config().root_aux,
                depth_aux == self.spec_config().depth_aux,
                self.spec_config().fits(old(region)@),
                region.wf(),
                region@.same_shape(old(region)@),
                region@.fixed == old(region)@.fixed,
                is_first_col == run_starts(types, i as int),
                cur_root.wf(),
                cur_depth.wf(),
                acc_key.wf(),
                i > 0 ==> cur_root@ == run_root(types, hashes, i - 1),
                i > 0 ==> cur_depth@ == run_depth(types, i - 1),
                i > 0 ==> acc_key@ == run_key(types, paths, i - 1),
                forall|c: int, r: int|
                    #[trigger] region@.advice_at(c, r) == aux_cell(
                        self.spec_config(),
                        old(region)@,
                        offset as int,
                        types,
                        hashes,
                        paths,
                        i as int,
                        c,
                        r,
                    ),
            decreases hash.len() - i,
        {
            let hash_type = new_hash_types[i];
            let index = i + offset;
            let flag = match hash_type {
                HashType::Leaf => Fe::one(),
                _ => Fe::zero(),
            };
            is_first.assign(region, index + 1, flag);

            cur_root = if is_first_col {
                hash[i]
            } else {
                cur_root
            };
            cur_depth = if is_first_col {
                Fe::one()
            } else {
                fr_double(&cur_depth)
            };
            let carried = if is_first_col {
                Fe::zero()
            } else {
                acc_key
            };
            acc_key = fr_add(&fr_mul(&path[i], &cur_depth), &carried);
            proof {
                lemma_multiplicative(path[i as int]@, cur_depth@);
            }

            root_aux.assign(region, index, cur_root);
            depth_aux.assign(region, index, cur_depth);
            key_aux.assign(region, index, acc_key);

            is_first_col = match hash_type {
                HashType::Leaf => true,
                _ => false,
            };
            i = i + 1;
        }
        hash.len()
    }

    /// Fills the two tables of role pairs, each from row 0 on.
    pub fn load(&self, region: &mut Region)
        requires
            old(region).wf(),
            self.spec_config().fits(old(region)@),
            old(region)@.rows >= 9,
        ensures
            final(region).wf(),
            final(region)@.same_shape(old(region)@),
            final(region)@.advice == old(region)@.advice,
            forall|c: int, r: int| #[trigger] final(region)@.advice_at(c, r) == old(region)@.advice_at(c, r),
            forall|c: int, r: int|
                #[trigger] final(region)@.fixed_at(c, r) == loaded_cell(
                    self.spec_config(),
                    old(region)@,
                    c,
                    r,
                ),
    {
        let maps = self.loaded();
        let (cur_col, next_col) = self.config.trans_table;
        let mut offset: usize = 0;
        while offset < maps.trans.len()
            invariant
                offset <= maps.trans.len(),
                maps.trans@ == transitions(),
                maps.op@ == type_pairs(),
                (cur_col, next_col) == self.spec_config().trans_table,
                self.spec_config().fits(old(region)@),
                old(region)@.rows >= 9,
                region.wf(),
                region@.same_shape(old(region)@),
                region@.advice == old(region)@.advice,
                forall|c: int, r: int|
                    #[trigger] region@.fixed_at(c, r) == if (c == cur_col.0 || c == next_col.0) && 0
                        <= r < offset {
                        table_cell(transitions(), c == next_col.0, r)
                    } else {
                        old(region)@.fixed_at(c, r)
                    },
            decreases maps.trans.len() - offset,
        {
            let (cur, next) = maps.trans[offset];
            cur_col.assign(region, offset, cur.to_field());
            next_col.assign(region, offset, next.to_field());
            offset = offset + 1;
        }
        let ghost middle = region@;
        let (old_col, new_col) = self.config.type_table;
        let mut offset: usize = 0;
        while offset < maps.op.len()
            invariant
                offset <= maps.op.len(),
                maps.trans@ == transitions(),
                maps.op@ == type_pairs(),
                (old_col, new_col) == self.spec_config().type_table,
                self.spec_config().fits(old(region)@),
                old(region)@.rows >= 9,
                region.wf(),
                region@.same_shape(old(region)@),
                region@.advice == old(region)@.advice,
                forall|c: int, r: int|
                    #[trigger] region@.fixed_at(c, r) == if (c == old_col.0 || c == new_col.0) && 0
                        <= r < offset {
                        table_cell(type_pairs(), c == new_col.0, r)
                    } else {
                        middle.fixed_at(c, r)
                    },
                forall|c: int, r: int|
                    #[trigger] middle.fixed_at(c, r) == if (c == self.spec_config().trans_table.0.0 || c
                        == self.spec_config().trans_table.1.0) && 0 <= r < 9 {
                        table_cell(transitions(), c == self.spec_config().trans_table.1.0, r)
                    } else {
                        old(region)@.fixed_at(c, r)
                    },
            decreases maps.op.len() - offset,
        {
            let (old_type, new_type) = maps.op[offset];
            old_col.assign(region, offset, old_type.to_field());
            new_col.assign(region, offset, new_type.to_field());
            offset = offset + 1;
        }
    }

    /// The columns of the chip.
    pub fn config(&self) -> (config: &MPTOpChipConfig)
        ensures
            *config == self.spec_config(),
    {
        &self.config
    }

    /// The two tables of role pairs that the chip loads.
    pub fn loaded(&self) -> (maps: Mappings)
        ensures
            maps.op@ == crate::hash_type::type_pairs(),
            maps.trans@ == crate::hash_type::transitions(),
    {
        Mappings::new()
    }
}

} // verus!
