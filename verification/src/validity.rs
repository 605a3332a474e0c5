//! Which batches of operations are valid, and the proof that the witness of a
//! valid batch satisfies the circuit.

use crate::constraint_system::{gate_holds_at, lookup_holds_at, row_satisfied, ConstraintSystem};
use crate::field::{
    add_mod, lemma_additive, lemma_double, lemma_multiplicative, lemma_sum_less, modulus, mul_mod,
};
use crate::hash_type::{
    pair_codes_allowed, role_of, step_codes_allowed, transition_allowed, type_pair_allowed, HashType,
};
use crate::mpt::{
    all_ops_wf, batch_cell, batch_fixed_cell, flat, is_assignment, MptCircuitConfig, NodeView,
    Operation,
};
use crate::op_rules::{
    gate_values, is_bit, lemma_pair_lookup, lemma_rules_make_gates_vanish, lemma_step_lookup, masked_step,
    row_rules, row_view, tables_loaded,
};
use crate::operations::{
    leaf_flag, op_gates, op_lookups, run_depth, run_key, run_starts, MPTOpChipConfig, OpColumns,
};
use crate::region::Trace;
use vstd::prelude::*;

verus! {

/// What is asked of one node: its old and new role are a legal pair, and above
/// a leaf its path is a bit.
pub open spec fn node_ok(node: NodeView) -> bool {
    &&& type_pair_allowed(node.old_type, node.new_type)
    &&& node.new_type != HashType::Leaf ==> is_bit(node.path)
}

/// What is asked of a node and the node before it in the batch: a run starts
/// exactly below a leaf; where one starts, the node's old hash is the root that
/// the run above led to; within a run, the old roles and the new roles each
/// take a legal step.
pub open spec fn link_ok(above: NodeView, node: NodeView) -> bool {
    &&& node.starts <==> above.new_type == HashType::Leaf
    &&& node.starts ==> node.old_hash == above.root
    &&& !node.starts ==> transition_allowed(above.old_type, node.old_type) && transition_allowed(
        above.new_type,
        node.new_type,
    )
}

/// What is asked of node `j` of a batch: the node is in order, and so is its
/// link with the node before it, if there is one.
pub open spec fn valid_at(nodes: Seq<NodeView>, j: int) -> bool {
    &&& node_ok(nodes[j])
    &&& j >= 1 ==> link_ok(nodes[j - 1], nodes[j])
}

/// The nodes of a batch are valid: the first starts from `start_root`, every
/// node and every pair of neighbours is in order, and the last node is a leaf.
pub open spec fn valid_nodes(nodes: Seq<NodeView>, start_root: nat) -> bool {
    &&& nodes.len() > 0
    &&& nodes[0].old_hash == start_root
    &&& nodes.last().new_type == HashType::Leaf
    &&& forall|j: int| 0 <= j < nodes.len() ==> #[trigger] valid_at(nodes, j)
}

/// A batch is valid: its operations are well formed and its nodes are valid,
/// starting from the old root of its first operation.
pub open spec fn valid_batch(ops: Seq<Operation>) -> bool {
    &&& ops.len() > 0
    &&& all_ops_wf(ops)
    &&& valid_nodes(flat(ops), ops[0].old_hash[0]@)
}

/// What the chip derives for node `j` of a batch: where a run starts, the root
/// is the node's new hash, the depth is one and the key is `path * depth`;
/// within a run the root is that of the node above, the depth twice that of the
/// node above, and the key `path * depth` more than that of the node above.
pub open spec fn derived_at(nodes: Seq<NodeView>, j: int) -> bool {
    let node = nodes[j];
    &&& node.path < modulus()
    &&& node.old_hash < modulus()
    &&& node.new_hash < modulus()
    &&& node.sibling < modulus()
    &&& node.root < modulus()
    &&& node.depth < modulus()
    &&& node.key < modulus()
    &&& node.key == if node.starts {
        mul_mod(node.path, node.depth)
    } else {
        add_mod(nodes[j - 1].key, mul_mod(node.path, node.depth))
    }
    &&& node.root == if node.starts {
        node.new_hash
    } else {
        nodes[j - 1].root
    }
    &&& node.depth == if node.starts {
        1
    } else {
        mul_mod(nodes[j - 1].depth, 2)
    }
    &&& !node.starts ==> j >= 1
}

/// What the chip derives for the nodes of a batch: the first node starts a run,
/// and every node is derived from its own cells and from the node above.
pub open spec fn derived(nodes: Seq<NodeView>) -> bool {
    &&& nodes.len() > 0 ==> nodes[0].starts
    &&& forall|j: int| 0 <= j < nodes.len() ==> #[trigger] derived_at(nodes, j)
}

/// What the chip derives holds of every node of a well-formed operation.
pub proof fn lemma_derived_op(op: Operation, i: int)
    requires
        op.wf(),
        0 <= i < op.len(),
    ensures
        derived_at(op.nodes(), i),
        op.nodes()[0].starts,
    decreases i,
{
    let nodes = op.nodes();
    let types = op.new_hash_type@;
    let node = nodes[i];
    assert(node == op.node(i));
    assert(nodes[0] == op.node(0));
    assert(op.path[i].wf() && op.old_hash[i].wf() && op.new_hash[i].wf() && op.siblings[i].wf());
    if run_starts(types, i) {
        lemma_multiplicative(node.path, 1);
        lemma_additive(mul_mod(node.path, 1), 0);
    } else {
        lemma_derived_op(op, i - 1);
        let above = nodes[i - 1];
        assert(above == op.node(i - 1));
        lemma_double(above.depth);
        lemma_additive(above.depth, above.depth);
        lemma_multiplicative(node.path, node.depth);
        lemma_additive(mul_mod(node.path, node.depth), above.key);
        lemma_sum_less(mul_mod(node.path, node.depth), above.key, 0);
    }
}

/// What the chip derives holds of the nodes of every batch of well-formed
/// operations.
pub proof fn lemma_derived(ops: Seq<Operation>)
    requires
        all_ops_wf(ops),
    ensures
        derived(flat(ops)),
    decreases ops.len(),
{
    if ops.len() > 0 {
        let init = ops.drop_last();
        let op = ops.last();
        assert(all_ops_wf(init)) by {
            assert forall|k: int| 0 <= k < init.len() implies (#[trigger] init[k]).wf() by {
                assert(init[k] == ops[k]);
            }
        }
        lemma_derived(init);
        assert(op == ops[ops.len() - 1]);
        let a = flat(init);
        let b = op.nodes();
        let nodes = flat(ops);
        assert(nodes == a + b);
        lemma_derived_op(op, 0);
        assert forall|j: int| 0 <= j < nodes.len() implies #[trigger] derived_at(nodes, j) by {
            if j < a.len() {
                assert(derived_at(a, j));
                assert(nodes[j] == a[j]);
                if j >= 1 {
                    assert(nodes[j - 1] == a[j - 1]);
                }
            } else {
                let i = j - a.len();
                lemma_derived_op(op, i);
                assert(nodes[j] == b[i]);
                if i >= 1 {
                    assert(nodes[j - 1] == b[i - 1]);
                }
            }
        }
        if a.len() > 0 {
            assert(nodes[0] == a[0]);
        } else {
            assert(nodes[0] == b[0]);
        }
    }
}

/// In the witness of a valid batch the rules of the chip hold at the row of
/// every node.
proof fn lemma_node_row(
    config: MptCircuitConfig,
    nodes: Seq<NodeView>,
    start_root: nat,
    trace: Trace,
    row: int,
)
    requires
        is_assignment(config, nodes, start_root, trace),
        derived(nodes),
        valid_nodes(nodes, start_root),
        1 <= row <= nodes.len(),
    ensures
        row_view(config.cols, config.chip, trace, row).active == 1,
        is_bit(row_view(config.cols, config.chip, trace, row).first),
        row_rules(row_view(config.cols, config.chip, trace, row)),
{
    let j = row - 1;
    let v = row_view(config.cols, config.chip, trace, row);
    assert(derived_at(nodes, j));
    assert(valid_at(nodes, j));
    if j >= 1 {
        assert(derived_at(nodes, j - 1));
    }
    assert(trace.fixed_at(config.cols.s_row.0 as int, row) == batch_fixed_cell(
        config,
        nodes.len(),
        config.cols.s_row.0 as int,
        row,
    ));
    assert(v.first == batch_cell(config, nodes, start_root, config.chip.is_first.0 as int, row));
    assert(v.first_next == batch_cell(
        config,
        nodes,
        start_root,
        config.chip.is_first.0 as int,
        row + 1,
    ));
    assert(v.path == batch_cell(config, nodes, start_root, config.cols.path.0 as int, row));
    assert(v.new_type == batch_cell(config, nodes, start_root, config.cols.new_hash_type.0 as int, row));
    assert(v.old_hash == batch_cell(config, nodes, start_root, config.cols.old_hash.0 as int, row));
    assert(v.new_hash == batch_cell(config, nodes, start_root, config.cols.new_hash.0 as int, row));
    assert(v.key == batch_cell(config, nodes, start_root, config.chip.key_aux.0 as int, row));
    assert(v.key_prev == batch_cell(config, nodes, start_root, config.chip.key_aux.0 as int, row - 1));
    assert(v.root == batch_cell(config, nodes, start_root, config.chip.root_aux.0 as int, row));
    assert(v.root_prev == batch_cell(
        config,
        nodes,
        start_root,
        config.chip.root_aux.0 as int,
        row - 1,
    ));
    assert(v.depth == batch_cell(config, nodes, start_root, config.chip.depth_aux.0 as int, row));
    assert(v.depth_prev == batch_cell(
        config,
        nodes,
        start_root,
        config.chip.depth_aux.0 as int,
        row - 1,
    ));
    assert(v.first == if nodes[j].starts { 1nat } else { 0nat });
}

/// In the witness of a valid batch every gate of the chip vanishes at every
/// row.
proof fn lemma_row_gates(
    config: MptCircuitConfig,
    nodes: Seq<NodeView>,
    start_root: nat,
    trace: Trace,
    row: int,
)
    requires
        is_assignment(config, nodes, start_root, trace),
        derived(nodes),
        valid_nodes(nodes, start_root),
        0 <= row < trace.rows,
    ensures
        forall|g: int|
            0 <= g < op_gates(config.cols, config.chip).len() ==> gate_holds_at(
                #[trigger] op_gates(config.cols, config.chip)[g],
                trace,
                row,
            ),
{
    let v = row_view(config.cols, config.chip, trace, row);
    if 1 <= row <= nodes.len() {
        lemma_node_row(config, nodes, start_root, trace, row);
    } else {
        assert(trace.fixed_at(config.cols.s_row.0 as int, row) == batch_fixed_cell(
            config,
            nodes.len(),
            config.cols.s_row.0 as int,
            row,
        ));
        assert(v.first == batch_cell(config, nodes, start_root, config.chip.is_first.0 as int, row));
    }
    lemma_rules_make_gates_vanish(config.cols, config.chip, trace, row);
}

/// The codes of a legal pair of roles are a legal pair of codes, and so for
/// steps.
proof fn lemma_codes(a: HashType, b: HashType)
    ensures
        role_of(a.code()) == Some(a),
        pair_codes_allowed(a.code(), b.code()) == type_pair_allowed(a, b),
        step_codes_allowed(a.code(), b.code()) == transition_allowed(a, b),
        pair_codes_allowed(0, 0),
        step_codes_allowed(0, 0),
{
}

/// In the witness of a valid batch the two tables are loaded.
proof fn lemma_tables(config: MptCircuitConfig, nodes: Seq<NodeView>, start_root: nat, trace: Trace)
    requires
        is_assignment(config, nodes, start_root, trace),
    ensures
        tables_loaded(config.chip, trace),
{
    assert forall|t: int| 0 <= t < trace.rows implies {
        &&& #[trigger] trace.fixed_at(config.chip.trans_table.0.0 as int, t)
            == crate::operations::table_cell(crate::hash_type::transitions(), false, t)
        &&& trace.fixed_at(config.chip.trans_table.1.0 as int, t) == crate::operations::table_cell(
            crate::hash_type::transitions(),
            true,
            t,
        )
        &&& trace.fixed_at(config.chip.type_table.0.0 as int, t) == crate::operations::table_cell(
            crate::hash_type::type_pairs(),
            false,
            t,
        )
        &&& trace.fixed_at(config.chip.type_table.1.0 as int, t) == crate::operations::table_cell(
            crate::hash_type::type_pairs(),
            true,
            t,
        )
    } by {
        assert(trace.fixed_at(config.chip.trans_table.0.0 as int, t) == batch_fixed_cell(
            config,
            nodes.len(),
            config.chip.trans_table.0.0 as int,
            t,
        ));
        assert(trace.fixed_at(config.chip.trans_table.1.0 as int, t) == batch_fixed_cell(
            config,
            nodes.len(),
            config.chip.trans_table.1.0 as int,
            t,
        ));
        assert(trace.fixed_at(config.chip.type_table.0.0 as int, t) == batch_fixed_cell(
            config,
            nodes.len(),
            config.chip.type_table.0.0 as int,
            t,
        ));
        assert(trace.fixed_at(config.chip.type_table.1.0 as int, t) == batch_fixed_cell(
            config,
            nodes.len(),
            config.chip.type_table.1.0 as int,
            t,
        ));
    }
}

/// What a role column of the witness holds at a row: the code of the node's
/// role at the row of a node, and zero elsewhere.
proof fn lemma_role_cells(
    config: MptCircuitConfig,
    nodes: Seq<NodeView>,
    start_root: nat,
    trace: Trace,
    row: int,
)
    requires
        is_assignment(config, nodes, start_root, trace),
    ensures
        trace.advice_at(config.cols.old_hash_type.0 as int, row) == if 1 <= row <= nodes.len() {
            nodes[row - 1].old_type.code()
        } else {
            0
        },
        trace.advice_at(config.cols.new_hash_type.0 as int, row) == if 1 <= row <= nodes.len() {
            nodes[row - 1].new_type.code()
        } else {
            0
        },
        trace.advice_at(config.chip.is_first.0 as int, row) == if row == 0 || row == 1 {
            1
        } else if 2 <= row <= nodes.len() + 1 {
            leaf_flag(nodes[row - 2].new_type)
        } else {
            0
        },
{
    if 0 <= row < trace.rows {
        assert(trace.advice_at(config.cols.old_hash_type.0 as int, row) == batch_cell(
            config,
            nodes,
            start_root,
            config.cols.old_hash_type.0 as int,
            row,
        ));
        assert(trace.advice_at(config.cols.new_hash_type.0 as int, row) == batch_cell(
            config,
            nodes,
            start_root,
            config.cols.new_hash_type.0 as int,
            row,
        ));
        assert(trace.advice_at(config.chip.is_first.0 as int, row) == batch_cell(
            config,
            nodes,
            start_root,
            config.chip.is_first.0 as int,
            row,
        ));
    } else {
        assert(trace.advice[config.cols.old_hash_type.0 as int].len() == trace.rows);
        assert(trace.advice[config.cols.new_hash_type.0 as int].len() == trace.rows);
        assert(trace.advice[config.chip.is_first.0 as int].len() == trace.rows);
    }
}

/// In the witness of a valid batch every lookup of the chip succeeds at every
/// row.
proof fn lemma_row_lookups(
    config: MptCircuitConfig,
    nodes: Seq<NodeView>,
    start_root: nat,
    trace: Trace,
    row: int,
)
    requires
        is_assignment(config, nodes, start_root, trace),
        derived(nodes),
        valid_nodes(nodes, start_root),
        0 <= row < trace.rows,
    ensures
        forall|l: int|
            0 <= l < op_lookups(config.cols, config.chip).len() ==> lookup_holds_at(
                #[trigger] op_lookups(config.cols, config.chip)[l],
                trace,
                row,
            ),
{
    let lookups = op_lookups(config.cols, config.chip);
    lemma_tables(config, nodes, start_root, trace);
    lemma_role_cells(config, nodes, start_root, trace, row);
    lemma_role_cells(config, nodes, start_root, trace, row - 1);
    let n = nodes.len() as int;
    if 1 <= row <= n {
        assert(valid_at(nodes, row - 1));
        assert(derived_at(nodes, row - 1));
        lemma_codes(nodes[row - 1].old_type, nodes[row - 1].new_type);
        if row >= 2 {
            lemma_codes(nodes[row - 2].old_type, nodes[row - 1].old_type);
            lemma_codes(nodes[row - 2].new_type, nodes[row - 1].new_type);
        }
    }
    lemma_codes(HashType::Middle, HashType::Middle);
    lemma_pair_lookup(config.cols, config.chip, trace, row);
    lemma_step_lookup(config.chip, config.cols.old_hash_type, lookups[0].name, trace, row);
    lemma_step_lookup(config.chip, config.cols.new_hash_type, lookups[1].name, trace, row);
    assert(lookups.len() == 3);
    assert(lookup_holds_at(lookups[2], trace, row));
    let old_step = masked_step(config.chip, config.cols.old_hash_type, trace, row);
    let new_step = masked_step(config.chip, config.cols.new_hash_type, trace, row);
    assert(step_codes_allowed(old_step.0, old_step.1));
    assert(step_codes_allowed(new_step.0, new_step.1));
    assert(lookup_holds_at(lookups[0], trace, row));
    assert(lookup_holds_at(lookups[1], trace, row));
}

/// The witness of a valid batch satisfies the circuit: at every row of the
/// trace every gate of the chip vanishes and every lookup succeeds.
pub proof fn lemma_valid_witness_satisfies(
    cs: ConstraintSystem,
    config: MptCircuitConfig,
    ops: Seq<Operation>,
    trace: Trace,
)
    requires
        valid_batch(ops),
        is_assignment(config, flat(ops), ops[0].old_hash[0]@, trace),
        cs.gates() == op_gates(config.cols, config.chip),
        cs.lookups() == op_lookups(config.cols, config.chip),
    ensures
        cs.satisfied_by(trace),
{
    let nodes = flat(ops);
    let start_root = ops[0].old_hash[0]@;
    lemma_derived(ops);
    assert forall|row: int| 0 <= row < trace.rows implies #[trigger] row_satisfied(
        cs.gates(),
        cs.lookups(),
        trace,
        row,
    ) by {
        lemma_row_gates(config, nodes, start_root, trace, row);
        lemma_row_lookups(config, nodes, start_root, trace, row);
    }
}

/// In a witness the selector and the flag are bits at every row.
proof fn lemma_bits(
    config: MptCircuitConfig,
    nodes: Seq<NodeView>,
    start_root: nat,
    trace: Trace,
    row: int,
)
    requires
        is_assignment(config, nodes, start_root, trace),
    ensures
        is_bit(row_view(config.cols, config.chip, trace, row).active),
        is_bit(row_view(config.cols, config.chip, trace, row).first),
        row_view(config.cols, config.chip, trace, row).active == 1 <==> 1 <= row <= nodes.len(),
{
    lemma_role_cells(config, nodes, start_root, trace, row);
    if 0 <= row < trace.rows {
        assert(trace.fixed_at(config.cols.s_row.0 as int, row) == batch_fixed_cell(
            config,
            nodes.len(),
            config.cols.s_row.0 as int,
            row,
        ));
    } else {
        assert(trace.fixed[config.cols.s_row.0 as int].len() == trace.rows);
    }
}

/// Where an operation starts in a witness, the continuity gate vanishes
/// exactly if the operation's old root is the root that the operation before it
/// led to, or, for the first operation, the root that the batch started from.
pub proof fn lemma_chained_roots(
    config: MptCircuitConfig,
    ops: Seq<Operation>,
    start_root: nat,
    trace: Trace,
    j: int,
)
    requires
        all_ops_wf(ops),
        is_assignment(config, flat(ops), start_root, trace),
        0 <= j < flat(ops).len(),
        j == 0 || flat(ops)[j - 1].new_type == HashType::Leaf,
    ensures
        gate_holds_at(op_gates(config.cols, config.chip)[7], trace, j + 1) <==> flat(ops)[j].old_hash
            == if j == 0 {
            start_root
        } else {
            flat(ops)[j - 1].root
        },
{
    let nodes = flat(ops);
    let row = j + 1;
    lemma_derived(ops);
    lemma_bits(config, nodes, start_root, trace, row);
    lemma_role_cells(config, nodes, start_root, trace, row);
    assert(derived_at(nodes, j));
    if j >= 1 {
        assert(derived_at(nodes, j - 1));
    }
    let v = row_view(config.cols, config.chip, trace, row);
    assert(v.old_hash == batch_cell(config, nodes, start_root, config.cols.old_hash.0 as int, row));
    assert(v.root_prev == batch_cell(
        config,
        nodes,
        start_root,
        config.chip.root_aux.0 as int,
        row - 1,
    ));
    crate::op_rules::lemma_continuity_gate(config.cols, config.chip, trace, row);
}

/// Changing the old root of one operation in a witness changes what the
/// continuity gate is worth at that operation's first row, and nothing else:
/// every other gate there, and every gate at every other row, is worth what it
/// was. If the new value is not the root of the row above, the continuity gate
/// fails there.
pub proof fn lemma_mutated_root(
    config: MptCircuitConfig,
    ops: Seq<Operation>,
    start_root: nat,
    trace: Trace,
    j: int,
    value: nat,
)
    requires
        all_ops_wf(ops),
        is_assignment(config, flat(ops), start_root, trace),
        0 <= j < flat(ops).len(),
        j == 0 || flat(ops)[j - 1].new_type == HashType::Leaf,
        value < modulus(),
    ensures
        ({
            let changed = trace.with_advice(config.cols.old_hash.0 as int, j + 1, value);
            let gates = op_gates(config.cols, config.chip);
            &&& changed.wf()
            &&& gate_holds_at(gates[7], changed, j + 1) <==> value == if j == 0 {
                start_root
            } else {
                flat(ops)[j - 1].root
            }
            &&& forall|g: int, row: int|
                0 <= g < gates.len() && !(g == 7 && row == j + 1) ==> #[trigger] gates[g].poly.value_at(
                    changed,
                    row,
                ) == gates[g].poly.value_at(trace, row)
        }),
{
    let nodes = flat(ops);
    let column = config.cols.old_hash.0 as int;
    let at = j + 1;
    let changed = trace.with_advice(column, at, value);
    let gates = op_gates(config.cols, config.chip);
    lemma_derived(ops);
    assert(trace.advice[column].len() == trace.rows);
    trace.lemma_with_advice(column, at, value);
    assert(changed.wf()) by {
        assert forall|c: int, r: int|
            0 <= c < changed.advice.len() && 0 <= r < changed.rows implies #[trigger] changed.advice[c][r]
            < modulus() by {
            assert(changed.advice_at(c, r) == changed.advice[c][r]);
            assert(trace.advice[c].len() == trace.rows);
            assert(trace.advice_at(c, r) == trace.advice[c][r]);
            assert(trace.advice[c][r] < modulus());
        }
    }
    assert forall|g: int, row: int| 0 <= g < gates.len() implies (#[trigger] gates[g].poly.value_at(
        changed,
        row,
    ) == gate_values(row_view(config.cols, config.chip, changed, row))[g] && gates[g].poly.value_at(
        trace,
        row,
    ) == gate_values(row_view(config.cols, config.chip, trace, row))[g]) by {
        lemma_bits(config, nodes, start_root, trace, row);
        crate::op_rules::lemma_gate_values(config.cols, config.chip, trace, row);
        crate::op_rules::lemma_gate_values(config.cols, config.chip, changed, row);
    }
    // the first row of the operation
    lemma_bits(config, nodes, start_root, trace, at);
    lemma_role_cells(config, nodes, start_root, trace, at);
    assert(derived_at(nodes, j));
    if j >= 1 {
        assert(derived_at(nodes, j - 1));
    }
    let v = row_view(config.cols, config.chip, changed, at);
    assert(trace.advice_at(config.chip.root_aux.0 as int, at - 1) == batch_cell(
        config,
        nodes,
        start_root,
        config.chip.root_aux.0 as int,
        at - 1,
    ));
    crate::op_rules::lemma_continuity_gate(config.cols, config.chip, changed, at);
}

/// At the first row of an operation the lookups of the role columns' steps
/// succeed whatever the roles above and below the boundary are.
pub proof fn lemma_boundary_masks(
    config: MPTOpChipConfig,
    cols: OpColumns,
    trace: Trace,
    row: int,
)
    requires
        trace.wf(),
        tables_loaded(config, trace),
        trace.advice_at(config.is_first.0 as int, row) == 1,
    ensures
        lookup_holds_at(op_lookups(cols, config)[0], trace, row),
        lookup_holds_at(op_lookups(cols, config)[1], trace, row),
{
    let lookups = op_lookups(cols, config);
    lemma_step_lookup(config, cols.old_hash_type, lookups[0].name, trace, row);
    lemma_step_lookup(config, cols.new_hash_type, lookups[1].name, trace, row);
    lemma_codes(HashType::Middle, HashType::Middle);
}

/// Two to the power `n`.
pub open spec fn pow2(n: nat) -> nat
    decreases n,
{
    if n == 0 {
        1
    } else {
        2 * pow2((n - 1) as nat)
    }
}

/// The number whose binary digits, least significant first, are the first
/// `count` path values: the sum of `paths[i] * 2^i`.
pub open spec fn weighted_sum(paths: Seq<nat>, count: nat) -> nat
    decreases count,
{
    if count == 0 {
        0
    } else {
        weighted_sum(paths, (count - 1) as nat) + paths[count - 1] * pow2((count - 1) as nat)
    }
}

/// In an operation that has no leaf above node `i`, the depth of node `i` is
/// `2^i` and its key is the sum of `paths[k] * 2^k` over the nodes down to it,
/// both reduced by the modulus.
pub proof fn lemma_key_reconstruction(types: Seq<HashType>, paths: Seq<nat>, i: int)
    requires
        0 <= i < types.len(),
        types.len() == paths.len(),
        forall|k: int| 0 <= k < i ==> types[k] != HashType::Leaf,
    ensures
        run_depth(types, i) == pow2(i as nat) % modulus(),
        run_key(types, paths, i) == weighted_sum(paths, (i + 1) as nat) % modulus(),
    decreases i,
{
    reveal(add_mod);
    reveal(mul_mod);
    let m = modulus() as int;
    if i == 0 {
        assert(weighted_sum(paths, 1) == weighted_sum(paths, 0) + paths[0] * pow2(0));
        assert(paths[0] * 1 == paths[0]) by (nonlinear_arith);
        vstd::arithmetic::div_mod::lemma_mod_twice(paths[0] as int, m);
    } else {
        lemma_key_reconstruction(types, paths, i - 1);
        let d = pow2((i - 1) as nat) as int;
        let w = weighted_sum(paths, i as nat) as int;
        let p = paths[i] as int;
        vstd::arithmetic::div_mod::lemma_add_mod_noop(d, d, m);
        assert(pow2(i as nat) == d + d);
        vstd::arithmetic::div_mod::lemma_mul_mod_noop_right(p, d + d, m);
        vstd::arithmetic::div_mod::lemma_add_mod_noop(p * (d + d), w, m);
        assert(weighted_sum(paths, (i + 1) as nat) == w + p * (d + d));
    }
}

} // verus!
