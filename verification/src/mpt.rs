//! The circuit of a batch of trie operations: its columns, its constraints and
//! the witness of a batch.

use crate::column::{AdviceColumn, SelectorColumn};
use crate::constraint_builder::ConstraintBuilder;
use crate::constraint_system::ConstraintSystem;
use crate::field::Fe;
use crate::hash_type::{transitions, type_pairs, HashType};
use crate::operations::{
    all_wf, chip_columns, leaf_flag, op_gates, op_lookups, run_depth, run_key, run_root, run_starts,
    table_cell, values, MPTOpChip, MPTOpChipConfig, OpColumns,
};
use crate::query::Query;
use crate::region::{Region, Trace};
use vstd::prelude::*;

verus! {

/// One update of the trie: the nodes of its path from the root down, held
/// column by column.
#[derive(Clone, Debug, PartialEq, Eq)]
pub struct Operation {
    /// The role of each node before the update.
    pub old_hash_type: Vec<HashType>,
    /// The role of each node after the update.
    pub new_hash_type: Vec<HashType>,
    /// The path bit at each branch, and the rest of the key at a leaf.
    pub path: Vec<Fe>,
    /// The hash of each node before the update; the first is the old root.
    pub old_hash: Vec<Fe>,
    /// The hash of each node after the update; the first is the new root.
    pub new_hash: Vec<Fe>,
    /// The hash of each node's sibling.
    pub siblings: Vec<Fe>,
}

/// An operation, as numbers: one sequence for each of its six columns.
pub struct OperationView {
    pub old_hash_type: Seq<HashType>,
    pub new_hash_type: Seq<HashType>,
    pub path: Seq<nat>,
    pub old_hash: Seq<nat>,
    pub new_hash: Seq<nat>,
    pub siblings: Seq<nat>,
}

impl View for Operation {
    type V = OperationView;

    open spec fn view(&self) -> OperationView {
        OperationView {
            old_hash_type: self.old_hash_type@,
            new_hash_type: self.new_hash_type@,
            path: values(self.path@),
            old_hash: values(self.old_hash@),
            new_hash: values(self.new_hash@),
            siblings: values(self.siblings@),
        }
    }
}

/// The operations of a batch, as numbers.
pub open spec fn ops_view(ops: Seq<Operation>) -> Seq<OperationView> {
    Seq::new(ops.len(), |k: int| ops[k]@)
}

/// One node of an operation, as numbers, with what the chip derives for it.
pub struct NodeView {
    pub old_type: HashType,
    pub new_type: HashType,
    pub path: nat,
    pub old_hash: nat,
    pub new_hash: nat,
    pub sibling: nat,
    /// The node is the first of a run.
    pub starts: bool,
    /// The root that the node's run leads to.
    pub root: nat,
    /// The weight of the node's path in the key.
    pub depth: nat,
    /// The key of the run as far as the node.
    pub key: nat,
}

impl Operation {
    /// The six columns have one cell for each node, there is a node, and every
    /// cell is a canonical field element.
    pub open spec fn wf(&self) -> bool {
        &&& self.new_hash.len() > 0
        &&& self.old_hash_type.len() == self.new_hash.len()
        &&& self.new_hash_type.len() == self.new_hash.len()
        &&& self.path.len() == self.new_hash.len()
        &&& self.old_hash.len() == self.new_hash.len()
        &&& self.siblings.len() == self.new_hash.len()
        &&& all_wf(self.path@)
        &&& all_wf(self.old_hash@)
        &&& all_wf(self.new_hash@)
        &&& all_wf(self.siblings@)
    }

    /// The number of nodes.
    pub open spec fn len(&self) -> nat {
        self.new_hash.len() as nat
    }

    /// Node `i`.
    pub open spec fn node(&self, i: int) -> NodeView {
        NodeView {
            old_type: self.old_hash_type[i],
            new_type: self.new_hash_type[i],
            path: self.path[i]@,
            old_hash: self.old_hash[i]@,
            new_hash: self.new_hash[i]@,
            sibling: self.siblings[i]@,
            starts: run_starts(self.new_hash_type@, i),
            root: run_root(self.new_hash_type@, values(self.new_hash@), i),
            depth: run_depth(self.new_hash_type@, i),
            key: run_key(self.new_hash_type@, values(self.path@), i),
        }
    }

    /// The nodes, from the root down.
    pub open spec fn nodes(&self) -> Seq<NodeView> {
        Seq::new(self.len(), |i: int| self.node(i))
    }
}

/// The nodes of a batch of operations, one operation after the other.
pub open spec fn flat(ops: Seq<Operation>) -> Seq<NodeView>
    decreases ops.len(),
{
    if ops.len() == 0 {
        Seq::empty()
    } else {
        flat(ops.drop_last()) + ops.last().nodes()
    }
}

/// Every operation of a batch is well formed.
pub open spec fn all_ops_wf(ops: Seq<Operation>) -> bool {
    forall|k: int| 0 <= k < ops.len() ==> (#[trigger] ops[k]).wf()
}

/// The columns of the circuit.
#[derive(Clone, Copy, Debug)]
pub struct MptCircuitConfig {
    /// The columns that hold the nodes of the operations.
    pub cols: OpColumns,
    /// The columns of the operation chip.
    pub chip: MPTOpChipConfig,
}

/// The columns that the circuit allocates when the constraint system has
/// `advice` advice columns and `fixed` fixed columns already: the selector, the
/// six columns of the nodes, then the columns of the chip.
pub open spec fn circuit_columns(advice: nat, fixed: nat) -> MptCircuitConfig {
    MptCircuitConfig {
        cols: OpColumns {
            s_row: SelectorColumn(fixed as usize),
            sibling: AdviceColumn(advice as usize),
            path: AdviceColumn((advice + 1) as usize),
            old_hash_type: AdviceColumn((advice + 2) as usize),
            new_hash_type: AdviceColumn((advice + 3) as usize),
            old_hash: AdviceColumn((advice + 4) as usize),
            new_hash: AdviceColumn((advice + 5) as usize),
        },
        chip: chip_columns(advice + 6, fixed + 1),
    }
}

/// A cell of the six advice columns of the nodes after the first `done` nodes
/// of an operation have been laid out from row `offset` on.
pub open spec fn layer_cell(
    cols: OpColumns,
    before: Trace,
    offset: int,
    nodes: Seq<NodeView>,
    done: int,
    column: int,
    row: int,
) -> nat {
    let i = row - offset;
    if 0 <= i < done {
        if column == cols.path.0 {
            nodes[i].path
        } else if column == cols.sibling.0 {
            nodes[i].sibling
        } else if column == cols.old_hash.0 {
            nodes[i].old_hash
        } else if column == cols.new_hash.0 {
            nodes[i].new_hash
        } else if column == cols.old_hash_type.0 {
            nodes[i].old_type.code()
        } else if column == cols.new_hash_type.0 {
            nodes[i].new_type.code()
        } else {
            before.advice_at(column, row)
        }
    } else {
        before.advice_at(column, row)
    }
}

/// An advice cell of the circuit after a batch with the given nodes has been
/// assigned, starting from the root `start_root`: row 0 is the head row, node
/// `j` lies at row `j + 1`, and everything else is zero.
pub open spec fn batch_cell(
    config: MptCircuitConfig,
    nodes: Seq<NodeView>,
    start_root: nat,
    column: int,
    row: int,
) -> nat {
    let n = nodes.len();
    if column == config.chip.is_first.0 {
        if row == 0 || row == 1 {
            1
        } else if 2 <= row <= n + 1 {
            leaf_flag(nodes[row - 2].new_type)
        } else {
            0
        }
    } else if column == config.chip.root_aux.0 && row == 0 {
        start_root
    } else if 1 <= row <= n {
        let node = nodes[row - 1];
        if column == config.chip.root_aux.0 {
            node.root
        } else if column == config.chip.depth_aux.0 {
            node.depth
        } else if column == config.chip.key_aux.0 {
            node.key
        } else if column == config.cols.path.0 {
            node.path
        } else if column == config.cols.sibling.0 {
            node.sibling
        } else if column == config.cols.old_hash.0 {
            node.old_hash
        } else if column == config.cols.new_hash.0 {
            node.new_hash
        } else if column == config.cols.old_hash_type.0 {
            node.old_type.code()
        } else if column == config.cols.new_hash_type.0 {
            node.new_type.code()
        } else {
            0
        }
    } else {
        0
    }
}

/// A fixed cell of the circuit after a batch of `n` nodes has been assigned:
/// the selector is on at the rows of the nodes, the two tables are loaded, and
/// everything else is zero.
pub open spec fn batch_fixed_cell(config: MptCircuitConfig, n: nat, column: int, row: int) -> nat {
    if column == config.cols.s_row.0 {
        if 1 <= row <= n {
            1
        } else {
            0
        }
    } else if column == config.chip.trans_table.0.0 {
        table_cell(transitions(), false, row)
    } else if column == config.chip.trans_table.1.0 {
        table_cell(transitions(), true, row)
    } else if column == config.chip.type_table.0.0 {
        table_cell(type_pairs(), false, row)
    } else if column == config.chip.type_table.1.0 {
        table_cell(type_pairs(), true, row)
    } else {
        0
    }
}

/// The trace is that of a batch with the given nodes that started from
/// `start_root`.
pub open spec fn is_assignment(
    config: MptCircuitConfig,
    nodes: Seq<NodeView>,
    start_root: nat,
    trace: Trace,
) -> bool {
    &&& trace.wf()
    &&& config.fits(trace)
    &&& trace.rows >= nodes.len() + 2
    &&& trace.rows >= 9
    &&& forall|c: int, r: int|
        0 <= r < trace.rows ==> #[trigger] trace.advice_at(c, r) == batch_cell(
            config,
            nodes,
            start_root,
            c,
            r,
        )
    &&& forall|c: int, r: int|
        0 <= r < trace.rows ==> #[trigger] trace.fixed_at(c, r) == batch_fixed_cell(
            config,
            nodes.len(),
            c,
            r,
        )
}

/// No cell of the trace has been assigned: every cell is zero.
pub open spec fn is_blank(trace: Trace) -> bool {
    &&& forall|c: int, r: int| #[trigger] trace.advice_at(c, r) == 0
    &&& forall|c: int, r: int| #[trigger] trace.fixed_at(c, r) == 0
}

/// The number of nodes of a batch.
pub open spec fn total_len(ops: Seq<Operation>) -> nat
    decreases ops.len(),
{
    if ops.len() == 0 {
        0
    } else {
        total_len(ops.drop_last()) + ops.last().len()
    }
}

/// A batch has as many nodes as its operations have together, and one
/// operation more adds its nodes at the end.
pub proof fn lemma_flat_step(ops: Seq<Operation>, k: int)
    requires
        0 <= k < ops.len(),
    ensures
        flat(ops.take(k + 1)) == flat(ops.take(k)) + ops[k].nodes(),
        total_len(ops.take(k + 1)) == total_len(ops.take(k)) + ops[k].len(),
        flat(ops.take(k)).len() == total_len(ops.take(k)),
        flat(ops.take(0)).len() == 0,
    decreases k,
{
    assert(ops.take(k + 1).drop_last() =~= ops.take(k));
    assert(ops.take(k + 1).last() == ops[k]);
    assert(ops.take(0).len() == 0);
    if k > 0 {
        lemma_flat_step(ops, k - 1);
    }
}

impl MptCircuitConfig {
    /// The columns are those that `configure` allocates, and they lie within
    /// the trace.
    pub open spec fn fits(&self, trace: Trace) -> bool {
        &&& *self == circuit_columns(self.cols.sibling.0 as nat, self.cols.s_row.0 as nat)
        &&& self.cols.sibling.0 + 10 <= trace.advice.len()
        &&& self.cols.s_row.0 + 5 <= trace.fixed.len()
        &&& trace.advice.len() <= usize::MAX
        &&& trace.fixed.len() <= usize::MAX
    }

    /// Allocates the columns of the circuit and compiles the constraints of the
    /// operation chip into the constraint system.
    pub fn configure(cs: &mut ConstraintSystem) -> (config: MptCircuitConfig)
        requires
            old(cs).advice_count() + 10 <= usize::MAX,
            old(cs).fixed_count() + 5 <= usize::MAX,
        ensures
            config == circuit_columns(old(cs).advice_count(), old(cs).fixed_count()),
            final(cs).advice_count() == old(cs).advice_count() + 10,
            final(cs).fixed_count() == old(cs).fixed_count() + 5,
            final(cs).gates() == old(cs).gates() + op_gates(config.cols, config.chip),
            final(cs).lookups() == old(cs).lookups() + op_lookups(config.cols, config.chip),
    {
        let s_row = SelectorColumn(cs.fixed_column());
        let sibling = AdviceColumn(cs.advice_column());
        let path = AdviceColumn(cs.advice_column());
        let old_hash_type = AdviceColumn(cs.advice_column());
        let new_hash_type = AdviceColumn(cs.advice_column());
        let old_hash = AdviceColumn(cs.advice_column());
        let new_hash = AdviceColumn(cs.advice_column());
        let mut cb = ConstraintBuilder::new();
        let chip = MPTOpChip::configure(
            cs,
            &mut cb,
            s_row,
            sibling,
            path,
            old_hash_type,
            new_hash_type,
            old_hash,
            new_hash,
        );
        cb.build(cs);
        let cols = OpColumns { s_row, sibling, path, old_hash_type, new_hash_type, old_hash, new_hash };
        assert(Seq::<crate::constraint_builder::GateView>::empty() + op_gates(cols, chip) =~= op_gates(
            cols,
            chip,
        ));
        assert(Seq::<crate::constraint_builder::LookupView>::empty() + op_lookups(cols, chip)
            =~= op_lookups(cols, chip));
        MptCircuitConfig { cols, chip }
    }

    /// Lays out the nodes of one operation from row `offset` on, switches the
    /// selector on at their rows, and returns their number.
    pub fn fill_layer(&self, region: &mut Region, op: &Operation, offset: usize) -> (filled: usize)
        requires
            old(region).wf(),
            self.fits(old(region)@),
            op.wf(),
            offset + op.len() <= old(region)@.rows,
        ensures
            filled == op.len(),
            final(region).wf(),
            final(region)@.same_shape(old(region)@),
            forall|c: int, r: int|
                #[trigger] final(region)@.advice_at(c, r) == layer_cell(
                    self.cols,
                    old(region)@,
                    offset as int,
                    op.nodes(),
                    op.len() as int,
                    c,
                    r,
                ),
            forall|c: int, r: int|
                #[trigger] final(region)@.fixed_at(c, r) == if c == self.cols.s_row.0 && offset <= r
                    < offset + op.len() {
                    1
                } else {
                    old(region)@.fixed_at(c, r)
                },
    {
        let rows = region.rows();
        let mut ind: usize = 0;
        while ind < op.path.len()
            invariant
                ind <= op.path.len(),
                rows == old(region)@.rows,
                op.wf(),
                offset + op.len() <= old(region)@.rows,
                self.fits(old(region)@),
                region.wf(),
                region@.same_shape(old(region)@),
                forall|c: int, r: int|
                    #[trigger] region@.advice_at(c, r) == layer_cell(
                        self.cols,
                        old(region)@,
                        offset as int,
                        op.nodes(),
                        ind as int,
                        c,
                        r,
                    ),
                forall|c: int, r: int|
                    #[trigger] region@.fixed_at(c, r) == if c == self.cols.s_row.0 && offset <= r
                        < offset + ind {
                        1
                    } else {
                        old(region)@.fixed_at(c, r)
                    },
            decreases op.path.len() - ind,
        {
            let row = offset + ind;
            self.cols.s_row.enable(region, row);
            self.cols.path.assign(region, row, op.path[ind]);
            self.cols.sibling.assign(region, row, op.siblings[ind]);
            self.cols.old_hash.assign(region, row, op.old_hash[ind]);
            self.cols.new_hash.assign(region, row, op.new_hash[ind]);
            self.cols.old_hash_type.assign(region, row, op.old_hash_type[ind].to_field());
            self.cols.new_hash_type.assign(region, row, op.new_hash_type[ind].to_field());
            ind = ind + 1;
        }
        op.path.len()
    }

    /// Assigns the witness of a batch of operations to a blank region: the head
    /// row, then the operations one after the other from row 1 on, then the
    /// two tables. The batch must fit the row budget `n_rows`, which must leave
    /// one row of the region free behind it.
    pub fn assign(&self, region: &mut Region, ops: &Vec<Operation>, n_rows: usize)
        requires
            old(region).wf(),
            is_blank(old(region)@),
            self.fits(old(region)@),
            ops.len() > 0,
            all_ops_wf(ops@),
            total_len(ops@) + 1 <= n_rows,
            n_rows < old(region)@.rows,
            old(region)@.rows >= 9,
        ensures
            is_assignment(*self, flat(ops@), ops[0].old_hash[0]@, final(region)@),
            final(region)@.same_shape(old(region)@),
    {
        let chip = MPTOpChip::construct(self.chip);
        let start_root = ops[0].old_hash[0];
        chip.fill_heading(region, start_root);
        let rows = region.rows();
        proof {
            lemma_flat_step(ops@, 0);
        }
        let mut offset: usize = 1;
        let mut k: usize = 0;
        while k < ops.len()
            invariant
                k <= ops.len(),
                rows == old(region)@.rows,
                all_ops_wf(ops@),
                total_len(ops@) + 1 <= n_rows,
                n_rows < old(region)@.rows,
                offset == total_len(ops@.take(k as int)) + 1,
                total_len(ops@.take(k as int)) <= total_len(ops@),
                flat(ops@.take(k as int)).len() == total_len(ops@.take(k as int)),
                chip.spec_config() == self.chip,
                self.fits(old(region)@),
                region.wf(),
                region@.same_shape(old(region)@),
                forall|c: int, r: int|
                    #[trigger] region@.advice_at(c, r) == batch_cell(
                        *self,
                        flat(ops@.take(k as int)),
                        start_root@,
                        c,
                        r,
                    ),
                forall|c: int, r: int|
                    #[trigger] region@.fixed_at(c, r) == if c == self.cols.s_row.0 && 1 <= r < offset {
                        1nat
                    } else {
                        0nat
                    },
            decreases ops.len() - k,
        {
            let op = &ops[k];
            proof {
                lemma_flat_step(ops@, k as int);
                lemma_total_monotone(ops@, k as int + 1);
                assert(op.wf());
            }
            let ghost before = region@;
            let ghost nodes_before = flat(ops@.take(k as int));
            chip.fill_aux(region, offset, &op.new_hash_type, &op.new_hash, &op.path);
            let filled = self.fill_layer(region, op, offset);
            proof {
                let nodes_after = flat(ops@.take(k as int + 1));
                assert(nodes_after == nodes_before + op.nodes());
                assert forall|c: int, r: int| #[trigger]
                    region@.advice_at(c, r) == batch_cell(*self, nodes_after, start_root@, c, r) by {
                    let j = r - 1;
                    if 0 <= j < nodes_before.len() {
                        assert(nodes_after[j] == nodes_before[j]);
                    }
                    if 0 <= j - 1 < nodes_before.len() {
                        assert(nodes_after[j - 1] == nodes_before[j - 1]);
                    }
                    if nodes_before.len() <= j < nodes_after.len() {
                        assert(nodes_after[j] == op.nodes()[j - nodes_before.len()]);
                    }
                    if nodes_before.len() <= j - 1 < nodes_after.len() {
                        assert(nodes_after[j - 1] == op.nodes()[j - 1 - nodes_before.len()]);
                    }
                }
            }
            offset = offset + filled;
            k = k + 1;
        }
        proof {
            assert(ops@.take(ops.len() as int) =~= ops@);
        }
        chip.load(region);
    }
}

/// The first operations of a batch have no more nodes than the batch.
pub proof fn lemma_total_monotone(ops: Seq<Operation>, k: int)
    requires
        0 <= k <= ops.len(),
    ensures
        total_len(ops.take(k)) <= total_len(ops),
    decreases ops.len() - k,
{
    if k == ops.len() {
        assert(ops.take(k) =~= ops);
    } else {
        lemma_flat_step(ops, k);
        lemma_total_monotone(ops, k + 1);
    }
}

/// Why a batch cannot be assigned.
#[derive(Clone, Copy, Debug, PartialEq, Eq, Structural)]
pub enum AssignError {
    /// The batch has no operation.
    EmptyBatch,
    /// The operation with this index, the first such, has no node, or its
    /// columns differ in length, or one of its cells is no canonical field
    /// element.
    MalformedOperation(usize),
    /// The batch, its head row and the row behind it do not fit into the rows
    /// of the region, or the tables do not.
    NotEnoughRows,
}

/// Whether every element of a list is canonical.
fn all_canonical(list: &Vec<Fe>) -> (r: bool)
    ensures
        r == all_wf(list@),
{
    let mut i: usize = 0;
    while i < list.len()
        invariant
            i <= list.len(),
            forall|k: int| 0 <= k < i ==> (#[trigger] list@[k]).wf(),
        decreases list.len() - i,
    {
        if !list[i].is_canonical() {
            return false;
        }
        i = i + 1;
    }
    true
}

impl Operation {
    /// Whether the operation is well formed.
    pub fn is_wf(&self) -> (r: bool)
        ensures
            r == self.wf(),
    {
        let n = self.new_hash.len();
        n > 0 && self.old_hash_type.len() == n && self.new_hash_type.len() == n && self.path.len() == n
            && self.old_hash.len() == n && self.siblings.len() == n && all_canonical(&self.path)
            && all_canonical(&self.old_hash) && all_canonical(&self.new_hash) && all_canonical(
            &self.siblings,
        )
    }
}

impl MptCircuitConfig {
    /// The columns are those that `configure` allocates, and their indices are
    /// within the range of the machine.
    pub open spec fn is_layout(&self) -> bool {
        &&& *self == circuit_columns(self.cols.sibling.0 as nat, self.cols.s_row.0 as nat)
        &&& self.cols.sibling.0 + 10 <= usize::MAX
        &&& self.cols.s_row.0 + 5 <= usize::MAX
    }

    /// Whether the columns are those that `configure` allocates.
    pub fn check_layout(&self) -> (r: bool)
        ensures
            r == self.is_layout(),
    {
        let advice = self.cols.sibling.0;
        let fixed = self.cols.s_row.0;
        if advice > usize::MAX - 10 || fixed > usize::MAX - 5 {
            return false;
        }
        self.cols.path.0 == advice + 1 && self.cols.old_hash_type.0 == advice + 2
            && self.cols.new_hash_type.0 == advice + 3 && self.cols.old_hash.0 == advice + 4
            && self.cols.new_hash.0 == advice + 5 && self.chip.is_first.0 == advice + 6
            && self.chip.key_aux.0 == advice + 7 && self.chip.root_aux.0 == advice + 8
            && self.chip.depth_aux.0 == advice + 9 && self.chip.type_table.0.0 == fixed + 1
            && self.chip.type_table.1.0 == fixed + 2 && self.chip.trans_table.0.0 == fixed + 3
            && self.chip.trans_table.1.0 == fixed + 4
    }

    /// The eight formulas that another circuit reads to look an update up in
    /// the rows of the operations: the selector, the flag, the root before and
    /// the root after the operation, the key and the path, and the old and the
    /// new hash of the node.
    pub fn lookup_exprs(&self) -> (exprs: [Query; 8])
        ensures
            exprs@ == seq![
                Query::Fixed(self.cols.s_row.0, 0),
                Query::Advice(self.chip.is_first.0, 0),
                Query::Advice(self.chip.root_aux.0, -1i32),
                Query::Advice(self.chip.root_aux.0, 0),
                Query::Advice(self.chip.key_aux.0, 0),
                Query::Advice(self.cols.path.0, 0),
                Query::Advice(self.cols.old_hash.0, 0),
                Query::Advice(self.cols.new_hash.0, 0),
            ],
    {
        let exprs = [
            self.cols.s_row.current().0,
            self.chip.is_first.current(),
            self.chip.root_aux.previous(),
            self.chip.root_aux.current(),
            self.chip.key_aux.current(),
            self.cols.path.current(),
            self.cols.old_hash.current(),
            self.cols.new_hash.current(),
        ];
        assert(exprs@ =~= seq![
            Query::Fixed(self.cols.s_row.0, 0),
            Query::Advice(self.chip.is_first.0, 0),
            Query::Advice(self.chip.root_aux.0, -1i32),
            Query::Advice(self.chip.root_aux.0, 0),
            Query::Advice(self.chip.key_aux.0, 0),
            Query::Advice(self.cols.path.0, 0),
            Query::Advice(self.cols.old_hash.0, 0),
            Query::Advice(self.cols.new_hash.0, 0),
        ]);
        exprs
    }

    /// Assigns the witness of a batch to a new region of `n_rows` rows, if the
    /// batch is in order and fits.
    pub fn synthesize(&self, ops: &Vec<Operation>, n_rows: usize) -> (result: Result<Region, AssignError>)
        requires
            self.is_layout(),
        ensures
            match result {
                Ok(region) => {
                    &&& ops.len() > 0
                    &&& all_ops_wf(ops@)
                    &&& total_len(ops@) + 2 <= n_rows
                    &&& n_rows >= 9
                    &&& region@.rows == n_rows
                    &&& is_assignment(*self, flat(ops@), ops[0].old_hash[0]@, region@)
                },
                Err(AssignError::EmptyBatch) => ops.len() == 0,
                Err(AssignError::MalformedOperation(k)) => {
                    &&& k < ops.len()
                    &&& !ops[k as int].wf()
                    &&& forall|j: int| 0 <= j < k ==> (#[trigger] ops[j]).wf()
                },
                Err(AssignError::NotEnoughRows) => {
                    &&& ops.len() > 0
                    &&& all_ops_wf(ops@)
                    &&& (total_len(ops@) + 2 > n_rows || n_rows < 9)
                },
            },
    {
        if ops.len() == 0 {
            return Err(AssignError::EmptyBatch);
        }
        let mut k: usize = 0;
        while k < ops.len()
            invariant
                k <= ops.len(),
                forall|j: int| 0 <= j < k ==> (#[trigger] ops[j]).wf(),
            decreases ops.len() - k,
        {
            if !ops[k].is_wf() {
                return Err(AssignError::MalformedOperation(k));
            }
            k = k + 1;
        }
        let mut total: usize = 0;
        let mut k: usize = 0;
        proof {
            lemma_flat_step(ops@, 0);
            assert(ops@.take(0).len() == 0);
        }
        while k < ops.len()
            invariant
                k <= ops.len(),
                all_ops_wf(ops@),
                total == total_len(ops@.take(k as int)),
                total + 2 <= n_rows || k == 0,
            decreases ops.len() - k,
        {
            let len = ops[k].new_hash.len();
            proof {
                lemma_flat_step(ops@, k as int);
                lemma_total_monotone(ops@, k as int + 1);
            }
            if n_rows < 2 || len > n_rows - 2 || total > n_rows - 2 - len {
                return Err(AssignError::NotEnoughRows);
            }
            total = total + len;
            k = k + 1;
        }
        proof {
            assert(ops@.take(ops.len() as int) =~= ops@);
        }
        if n_rows < 9 {
            return Err(AssignError::NotEnoughRows);
        }
        let mut region = Region::new(self.cols.sibling.0 + 10, self.cols.s_row.0 + 5, n_rows);
        proof {
            let trace = region@;
            assert forall|c: int, r: int| #[trigger] trace.advice_at(c, r) == 0 by {}
            assert forall|c: int, r: int| #[trigger] trace.fixed_at(c, r) == 0 by {}
        }
        self.assign(&mut region, ops, n_rows - 1);
        Ok(region)
    }
}

} // verus!
