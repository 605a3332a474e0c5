//! What the gates of the operation chip mean, row by row.

use crate::column::AdviceColumn;
use crate::constraint_builder::LookupView;
use crate::constraint_system::{gate_holds_at, lookup_holds_at, lookup_matches};
use crate::field::{
    add_mod, lemma_additive, lemma_multiplicative, lemma_sum_less, modulus, mul_mod, sub_mod,
};
use crate::hash_type::{
    pair_codes_allowed, step_codes_allowed, transitions, type_pairs, HashType,
};
use crate::operations::{
    active, at_first, at_later, cell, gate_boundary, gate_continue, gate_depth_doubles,
    gate_depth_restarts, gate_flag_is_bit, gate_key_accumulates, gate_key_restarts, gate_path_bit,
    gate_root_is_held, gate_root_restarts, key_step, not_leaf, one, op_gates, op_lookups, product,
    sum, table_cell, transition_pairs, MPTOpChipConfig, OpColumns,
};
use crate::query::Query;
use crate::region::Trace;
use vstd::prelude::*;

verus! {

/// The cells that the gates read at one row.
pub struct RowView {
    pub active: nat,
    pub first: nat,
    pub first_next: nat,
    pub path: nat,
    pub new_type: nat,
    pub old_hash: nat,
    pub new_hash: nat,
    pub key: nat,
    pub key_prev: nat,
    pub root: nat,
    pub root_prev: nat,
    pub depth: nat,
    pub depth_prev: nat,
}

/// The cells that the gates read at a row of a trace.
pub open spec fn row_view(cols: OpColumns, config: MPTOpChipConfig, trace: Trace, row: int) -> RowView {
    RowView {
        active: trace.fixed_at(cols.s_row.0 as int, row),
        first: trace.advice_at(config.is_first.0 as int, row),
        first_next: trace.advice_at(config.is_first.0 as int, row + 1),
        path: trace.advice_at(cols.path.0 as int, row),
        new_type: trace.advice_at(cols.new_hash_type.0 as int, row),
        old_hash: trace.advice_at(cols.old_hash.0 as int, row),
        new_hash: trace.advice_at(cols.new_hash.0 as int, row),
        key: trace.advice_at(config.key_aux.0 as int, row),
        key_prev: trace.advice_at(config.key_aux.0 as int, row - 1),
        root: trace.advice_at(config.root_aux.0 as int, row),
        root_prev: trace.advice_at(config.root_aux.0 as int, row - 1),
        depth: trace.advice_at(config.depth_aux.0 as int, row),
        depth_prev: trace.advice_at(config.depth_aux.0 as int, row - 1),
    }
}

/// A value is zero or one.
pub open spec fn is_bit(x: nat) -> bool {
    x == 0 || x == 1
}

/// What the gates ask of the flag of the next row: it is a bit, and it is set
/// only below a leaf.
pub open spec fn boundary_rule(v: RowView) -> bool {
    is_bit(v.first_next) && (v.first_next == 1 ==> v.new_type == HashType::Leaf.code())
}

/// What the gates ask of the path: above a leaf it is a bit.
pub open spec fn path_rule(v: RowView) -> bool {
    v.new_type != HashType::Leaf.code() ==> is_bit(v.path)
}

/// What the gates ask of the key: `path * depth` at a first row, and the key
/// of the row above more at a later row.
pub open spec fn key_rule(v: RowView) -> bool {
    if v.first == 1 {
        v.key == mul_mod(v.path, v.depth)
    } else {
        v.key == add_mod(v.key_prev, mul_mod(v.path, v.depth))
    }
}

/// What the gates ask of the root: the new hash at a first row, and the root
/// of the row above at a later row.
pub open spec fn root_rule(v: RowView) -> bool {
    if v.first == 1 {
        v.root == v.new_hash
    } else {
        v.root == v.root_prev
    }
}

/// What the gates ask of the old hash: at a first row it is the root of the
/// row above.
pub open spec fn continuity_rule(v: RowView) -> bool {
    v.first == 1 ==> v.old_hash == v.root_prev
}

/// What the gates ask of the depth: one at a first row, and twice the depth of
/// the row above at a later row.
pub open spec fn depth_rule(v: RowView) -> bool {
    if v.first == 1 {
        v.depth == 1
    } else {
        v.depth == mul_mod(v.depth_prev, 2)
    }
}

/// What the gates ask of an active row.
pub open spec fn row_rules(v: RowView) -> bool {
    &&& boundary_rule(v)
    &&& path_rule(v)
    &&& key_rule(v)
    &&& root_rule(v)
    &&& continuity_rule(v)
    &&& depth_rule(v)
}

/// A product with a bit is the other factor or zero.
pub proof fn lemma_switch(s: nat, x: nat)
    requires
        is_bit(s),
        x < modulus(),
    ensures
        mul_mod(s, x) == if s == 1 {
            x
        } else {
            0
        },
        is_bit(sub_mod(1, s)),
        sub_mod(1, s) == 1 <==> s == 0,
{
    lemma_multiplicative(x, s);
    lemma_additive(1, s);
}

/// A formula switched by the selector is worth the formula at an active row
/// and zero elsewhere.
pub proof fn lemma_active(cols: OpColumns, config: MPTOpChipConfig, trace: Trace, row: int, body: Query)
    requires
        trace.wf(),
        body.wf(),
        is_bit(row_view(cols, config, trace, row).active),
    ensures
        product(active(cols), body).value_at(trace, row) == if row_view(
            cols,
            config,
            trace,
            row,
        ).active == 1 {
            body.value_at(trace, row)
        } else {
            0
        },
{
    reveal_with_fuel(Query::value_at, 2);
    body.lemma_value_bound(trace, row);
    lemma_switch(row_view(cols, config, trace, row).active, body.value_at(trace, row));
}

/// A formula switched by `s_row * is_first` is worth the formula at the first
/// row of an operation and zero elsewhere.
pub proof fn lemma_at_first(cols: OpColumns, config: MPTOpChipConfig, trace: Trace, row: int, body: Query)
    requires
        trace.wf(),
        body.wf(),
        is_bit(row_view(cols, config, trace, row).active),
        is_bit(row_view(cols, config, trace, row).first),
    ensures
        product(at_first(cols, config), body).value_at(trace, row) == if row_view(
            cols,
            config,
            trace,
            row,
        ).active == 1 && row_view(cols, config, trace, row).first == 1 {
            body.value_at(trace, row)
        } else {
            0
        },
{
    reveal_with_fuel(Query::value_at, 3);
    let v = row_view(cols, config, trace, row);
    body.lemma_value_bound(trace, row);
    lemma_switch(v.active, v.first);
    lemma_switch(mul_mod(v.active, v.first), body.value_at(trace, row));
}

/// A formula switched by `s_row * (1 - is_first)` is worth the formula at a
/// later row of an operation and zero elsewhere.
pub proof fn lemma_at_later(cols: OpColumns, config: MPTOpChipConfig, trace: Trace, row: int, body: Query)
    requires
        trace.wf(),
        body.wf(),
        is_bit(row_view(cols, config, trace, row).active),
        is_bit(row_view(cols, config, trace, row).first),
    ensures
        product(at_later(cols, config), body).value_at(trace, row) == if row_view(
            cols,
            config,
            trace,
            row,
        ).active == 1 && row_view(cols, config, trace, row).first == 0 {
            body.value_at(trace, row)
        } else {
            0
        },
{
    reveal_with_fuel(Query::value_at, 5);
    let v = row_view(cols, config, trace, row);
    body.lemma_value_bound(trace, row);
    lemma_additive(1, v.first);
    lemma_switch(v.first, 0);
    lemma_switch(v.active, sub_mod(1, v.first));
    lemma_switch(mul_mod(v.active, sub_mod(1, v.first)), body.value_at(trace, row));
}

/// The difference of two formulas is worth the difference of what they are
/// worth.
pub proof fn lemma_minus(a: Query, b: Query, trace: Trace, row: int)
    requires
        trace.wf(),
        a.wf(),
        b.wf(),
    ensures
        a.spec_minus(b).value_at(trace, row) == sub_mod(a.value_at(trace, row), b.value_at(trace, row)),
        a.spec_minus(b).wf(),
{
    reveal_with_fuel(Query::value_at, 3);
    reveal_with_fuel(Query::wf, 3);
    a.lemma_value_bound(trace, row);
    b.lemma_value_bound(trace, row);
    lemma_additive(a.value_at(trace, row), b.value_at(trace, row));
}

/// What each gate of the chip is worth at a row where the selector and the
/// flag are bits.
pub open spec fn gate_values(v: RowView) -> Seq<nat> {
    let on = v.active == 1;
    let first = on && v.first == 1;
    let later = on && v.first == 0;
    let leafless = sub_mod(v.new_type, 4);
    seq![
        if on { mul_mod(sub_mod(1, v.first_next), v.first_next) } else { 0 },
        mul_mod(mul_mod(v.active, v.first_next), leafless),
        if on { mul_mod(mul_mod(sub_mod(1, v.path), v.path), leafless) } else { 0 },
        if first { sub_mod(mul_mod(v.path, v.depth), v.key) } else { 0 },
        if later { add_mod(v.key_prev, sub_mod(mul_mod(v.path, v.depth), v.key)) } else { 0 },
        if first { sub_mod(v.root, v.new_hash) } else { 0 },
        if later { sub_mod(v.root, v.root_prev) } else { 0 },
        if first { sub_mod(v.old_hash, v.root_prev) } else { 0 },
        if first { sub_mod(1, v.depth) } else { 0 },
        if later { sub_mod(mul_mod(v.depth_prev, 2), v.depth) } else { 0 },
    ]
}

/// The first three gates are worth what `gate_values` says.
proof fn lemma_flag_gates(cols: OpColumns, config: MPTOpChipConfig, trace: Trace, row: int)
    requires
        trace.wf(),
        is_bit(row_view(cols, config, trace, row).active),
    ensures
        gate_flag_is_bit(cols, config).value_at(trace, row) == gate_values(
            row_view(cols, config, trace, row),
        )[0],
        gate_boundary(cols, config).value_at(trace, row) == gate_values(
            row_view(cols, config, trace, row),
        )[1],
        gate_path_bit(cols).value_at(trace, row) == gate_values(row_view(cols, config, trace, row))[2],
{
    reveal_with_fuel(Query::value_at, 3);
    reveal_with_fuel(Query::wf, 6);
    let v = row_view(cols, config, trace, row);
    let next = cell(config.is_first, 1);
    let path = cell(cols.path, 0);
    let leaf = Query::Constant(crate::field::Fe::lit(4));
    lemma_minus(one(), next, trace, row);
    lemma_minus(one(), path, trace, row);
    lemma_minus(cell(cols.new_hash_type, 0), leaf, trace, row);
    lemma_active(cols, config, trace, row, product(one().spec_minus(next), next));
    lemma_active(
        cols,
        config,
        trace,
        row,
        product(product(one().spec_minus(path), path), not_leaf(cols)),
    );
}

/// The gates on the key and on the root are worth what `gate_values` says.
proof fn lemma_key_root_gates(cols: OpColumns, config: MPTOpChipConfig, trace: Trace, row: int)
    requires
        trace.wf(),
        is_bit(row_view(cols, config, trace, row).active),
        is_bit(row_view(cols, config, trace, row).first),
    ensures
        gate_key_restarts(cols, config).value_at(trace, row) == gate_values(
            row_view(cols, config, trace, row),
        )[3],
        gate_key_accumulates(cols, config).value_at(trace, row) == gate_values(
            row_view(cols, config, trace, row),
        )[4],
        gate_root_restarts(cols, config).value_at(trace, row) == gate_values(
            row_view(cols, config, trace, row),
        )[5],
        gate_root_is_held(cols, config).value_at(trace, row) == gate_values(
            row_view(cols, config, trace, row),
        )[6],
{
    reveal_with_fuel(Query::value_at, 3);
    reveal_with_fuel(Query::wf, 6);
    let step = key_step(cols, config);
    lemma_minus(
        product(cell(cols.path, 0), cell(config.depth_aux, 0)),
        cell(config.key_aux, 0),
        trace,
        row,
    );
    lemma_at_first(cols, config, trace, row, step);
    lemma_at_later(cols, config, trace, row, sum(cell(config.key_aux, -1i32), step));
    let restart = cell(config.root_aux, 0).spec_minus(cell(cols.new_hash, 0));
    let held = cell(config.root_aux, 0).spec_minus(cell(config.root_aux, -1i32));
    lemma_minus(cell(config.root_aux, 0), cell(cols.new_hash, 0), trace, row);
    lemma_minus(cell(config.root_aux, 0), cell(config.root_aux, -1i32), trace, row);
    lemma_at_first(cols, config, trace, row, restart);
    lemma_at_later(cols, config, trace, row, held);
}

/// The gates on the old hash and on the depth are worth what `gate_values`
/// says.
proof fn lemma_depth_gates(cols: OpColumns, config: MPTOpChipConfig, trace: Trace, row: int)
    requires
        trace.wf(),
        is_bit(row_view(cols, config, trace, row).active),
        is_bit(row_view(cols, config, trace, row).first),
    ensures
        gate_continue(cols, config).value_at(trace, row) == gate_values(
            row_view(cols, config, trace, row),
        )[7],
        gate_depth_restarts(cols, config).value_at(trace, row) == gate_values(
            row_view(cols, config, trace, row),
        )[8],
        gate_depth_doubles(cols, config).value_at(trace, row) == gate_values(
            row_view(cols, config, trace, row),
        )[9],
{
    reveal_with_fuel(Query::value_at, 3);
    reveal_with_fuel(Query::wf, 6);
    lemma_minus(cell(cols.old_hash, 0), cell(config.root_aux, -1i32), trace, row);
    lemma_at_first(
        cols,
        config,
        trace,
        row,
        cell(cols.old_hash, 0).spec_minus(cell(config.root_aux, -1i32)),
    );
    lemma_minus(one(), cell(config.depth_aux, 0), trace, row);
    lemma_at_first(cols, config, trace, row, one().spec_minus(cell(config.depth_aux, 0)));
    let twice = product(cell(config.depth_aux, -1i32), Query::Constant(crate::field::Fe::lit(2)));
    lemma_minus(twice, cell(config.depth_aux, 0), trace, row);
    lemma_at_later(cols, config, trace, row, twice.spec_minus(cell(config.depth_aux, 0)));
}

/// Each gate of the chip is worth what `gate_values` says of the cells it
/// reads, at a row where the selector and the flag are bits.
pub proof fn lemma_gate_values(cols: OpColumns, config: MPTOpChipConfig, trace: Trace, row: int)
    requires
        trace.wf(),
        is_bit(row_view(cols, config, trace, row).active),
        is_bit(row_view(cols, config, trace, row).first),
    ensures
        op_gates(cols, config).len() == 10,
        gate_values(row_view(cols, config, trace, row)).len() == 10,
        forall|g: int|
            0 <= g < 10 ==> (#[trigger] op_gates(cols, config)[g]).poly.value_at(trace, row)
                == gate_values(row_view(cols, config, trace, row))[g],
{
    lemma_flag_gates(cols, config, trace, row);
    lemma_key_root_gates(cols, config, trace, row);
    lemma_depth_gates(cols, config, trace, row);
}

/// Every cell of the row is a canonical field element.
pub open spec fn row_bounded(v: RowView) -> bool {
    &&& v.active < modulus()
    &&& v.first < modulus()
    &&& v.first_next < modulus()
    &&& v.path < modulus()
    &&& v.new_type < modulus()
    &&& v.old_hash < modulus()
    &&& v.new_hash < modulus()
    &&& v.key < modulus()
    &&& v.key_prev < modulus()
    &&& v.root < modulus()
    &&& v.root_prev < modulus()
    &&& v.depth < modulus()
    &&& v.depth_prev < modulus()
}

/// The cells that the gates read in a well-formed trace are canonical field
/// elements.
pub proof fn lemma_row_bounded(cols: OpColumns, config: MPTOpChipConfig, trace: Trace, row: int)
    requires
        trace.wf(),
    ensures
        row_bounded(row_view(cols, config, trace, row)),
{
    trace.lemma_cell_bound(cols.s_row.0 as int, row);
    trace.lemma_cell_bound(config.is_first.0 as int, row);
    trace.lemma_cell_bound(config.is_first.0 as int, row + 1);
    trace.lemma_cell_bound(cols.path.0 as int, row);
    trace.lemma_cell_bound(cols.new_hash_type.0 as int, row);
    trace.lemma_cell_bound(cols.old_hash.0 as int, row);
    trace.lemma_cell_bound(cols.new_hash.0 as int, row);
    trace.lemma_cell_bound(config.key_aux.0 as int, row);
    trace.lemma_cell_bound(config.key_aux.0 as int, row - 1);
    trace.lemma_cell_bound(config.root_aux.0 as int, row);
    trace.lemma_cell_bound(config.root_aux.0 as int, row - 1);
    trace.lemma_cell_bound(config.depth_aux.0 as int, row);
    trace.lemma_cell_bound(config.depth_aux.0 as int, row - 1);
}

/// Where the flags are bits, the gates on the key, the root, the old hash and
/// the depth vanish exactly where their rules hold; the gates on the flag
/// and on the path vanish where theirs hold.
pub proof fn lemma_values_and_rules(v: RowView)
    requires
        row_bounded(v),
        is_bit(v.active),
        is_bit(v.first),
    ensures
        gate_values(v)[3] == 0 && gate_values(v)[4] == 0 <==> (v.active == 1 ==> key_rule(v)),
        gate_values(v)[5] == 0 && gate_values(v)[6] == 0 <==> (v.active == 1 ==> root_rule(v)),
        gate_values(v)[7] == 0 <==> (v.active == 1 ==> continuity_rule(v)),
        gate_values(v)[8] == 0 && gate_values(v)[9] == 0 <==> (v.active == 1 ==> depth_rule(v)),
        (v.active == 1 ==> boundary_rule(v)) ==> gate_values(v)[0] == 0 && gate_values(v)[1] == 0,
        is_bit(v.first_next) && gate_values(v)[1] == 0 ==> (v.active == 1 ==> boundary_rule(v)),
        (v.active == 1 ==> path_rule(v)) ==> gate_values(v)[2] == 0,
{
    let leafless = sub_mod(v.new_type, 4);
    lemma_additive(v.new_type, 4);
    // the key
    lemma_multiplicative(v.path, v.depth);
    let pd = mul_mod(v.path, v.depth);
    lemma_additive(pd, v.key);
    lemma_sum_less(v.key_prev, pd, v.key);
    // the root and the old hash
    lemma_additive(v.root, v.new_hash);
    lemma_additive(v.root, v.root_prev);
    lemma_additive(v.old_hash, v.root_prev);
    // the depth
    lemma_additive(1, v.depth);
    lemma_multiplicative(v.depth_prev, 2);
    lemma_additive(mul_mod(v.depth_prev, 2), v.depth);
    // the flag of the next row
    lemma_additive(1, v.first_next);
    lemma_multiplicative(sub_mod(1, v.first_next), v.first_next);
    lemma_multiplicative(v.first_next, v.active);
    lemma_multiplicative(v.active, v.first_next);
    lemma_multiplicative(leafless, mul_mod(v.active, v.first_next));
    lemma_multiplicative(mul_mod(v.active, v.first_next), leafless);
    // the path
    lemma_additive(1, v.path);
    lemma_multiplicative(sub_mod(1, v.path), v.path);
    lemma_multiplicative(mul_mod(sub_mod(1, v.path), v.path), leafless);
    lemma_multiplicative(leafless, mul_mod(sub_mod(1, v.path), v.path));
}

/// At a row where the selector and the flag are bits and the rules hold if the
/// row is active, every gate of the chip vanishes.
pub proof fn lemma_rules_make_gates_vanish(
    cols: OpColumns,
    config: MPTOpChipConfig,
    trace: Trace,
    row: int,
)
    requires
        trace.wf(),
        is_bit(row_view(cols, config, trace, row).active),
        is_bit(row_view(cols, config, trace, row).first),
        row_view(cols, config, trace, row).active == 1 ==> row_rules(
            row_view(cols, config, trace, row),
        ),
    ensures
        forall|g: int|
            0 <= g < op_gates(cols, config).len() ==> gate_holds_at(
                #[trigger] op_gates(cols, config)[g],
                trace,
                row,
            ),
{
    lemma_gate_values(cols, config, trace, row);
    lemma_row_bounded(cols, config, trace, row);
    lemma_values_and_rules(row_view(cols, config, trace, row));
}

/// At an active row where the flags are bits and every gate of the chip
/// vanishes, the rules on the boundary, the key, the root, the old hash and the
/// depth hold.
pub proof fn lemma_gates_enforce_rules(
    cols: OpColumns,
    config: MPTOpChipConfig,
    trace: Trace,
    row: int,
)
    requires
        trace.wf(),
        row_view(cols, config, trace, row).active == 1,
        is_bit(row_view(cols, config, trace, row).first),
        is_bit(row_view(cols, config, trace, row).first_next),
        forall|g: int|
            0 <= g < op_gates(cols, config).len() ==> gate_holds_at(
                #[trigger] op_gates(cols, config)[g],
                trace,
                row,
            ),
    ensures
        boundary_rule(row_view(cols, config, trace, row)),
        key_rule(row_view(cols, config, trace, row)),
        root_rule(row_view(cols, config, trace, row)),
        continuity_rule(row_view(cols, config, trace, row)),
        depth_rule(row_view(cols, config, trace, row)),
{
    lemma_gate_values(cols, config, trace, row);
    lemma_row_bounded(cols, config, trace, row);
    lemma_values_and_rules(row_view(cols, config, trace, row));
    let g = op_gates(cols, config);
    assert(gate_holds_at(g[1], trace, row));
    assert(gate_holds_at(g[3], trace, row));
    assert(gate_holds_at(g[4], trace, row));
    assert(gate_holds_at(g[5], trace, row));
    assert(gate_holds_at(g[6], trace, row));
    assert(gate_holds_at(g[7], trace, row));
    assert(gate_holds_at(g[8], trace, row));
    assert(gate_holds_at(g[9], trace, row));
}

/// At the first row of an operation the continuity gate vanishes exactly where
/// the old hash is the root of the row above.
pub proof fn lemma_continuity_gate(cols: OpColumns, config: MPTOpChipConfig, trace: Trace, row: int)
    requires
        trace.wf(),
        row_view(cols, config, trace, row).active == 1,
        row_view(cols, config, trace, row).first == 1,
    ensures
        gate_holds_at(op_gates(cols, config)[7], trace, row) <==> row_view(
            cols,
            config,
            trace,
            row,
        ).old_hash == row_view(cols, config, trace, row).root_prev,
{
    lemma_gate_values(cols, config, trace, row);
    lemma_row_bounded(cols, config, trace, row);
    lemma_values_and_rules(row_view(cols, config, trace, row));
}

/// The two tables hold their rows from row 0 on, and zeros below.
pub open spec fn tables_loaded(config: MPTOpChipConfig, trace: Trace) -> bool {
    &&& trace.rows >= 9
    &&& forall|t: int|
        0 <= t < trace.rows ==> {
            &&& #[trigger] trace.fixed_at(config.trans_table.0.0 as int, t) == table_cell(
                transitions(),
                false,
                t,
            )
            &&& trace.fixed_at(config.trans_table.1.0 as int, t) == table_cell(transitions(), true, t)
            &&& trace.fixed_at(config.type_table.0.0 as int, t) == table_cell(type_pairs(), false, t)
            &&& trace.fixed_at(config.type_table.1.0 as int, t) == table_cell(type_pairs(), true, t)
        }
}

/// The rows of the type-pairing table, as codes, are exactly the legal pairs.
proof fn lemma_pair_rows(x: nat, y: nat)
    ensures
        pair_codes_allowed(x, y) <==> exists|t: int|
            0 <= t < 9 && #[trigger] table_cell(type_pairs(), false, t) == x && table_cell(
                type_pairs(),
                true,
                t,
            ) == y,
{
    let p = type_pairs();
    assert(p.len() == 5);
    assert(table_cell(p, false, 0) == 1 && table_cell(p, true, 0) == 4);
    assert(table_cell(p, false, 1) == 4 && table_cell(p, true, 1) == 4);
    assert(table_cell(p, false, 2) == 0 && table_cell(p, true, 2) == 0);
    assert(table_cell(p, false, 3) == 2 && table_cell(p, true, 3) == 0);
    assert(table_cell(p, false, 4) == 3 && table_cell(p, true, 4) == 0);
    assert(table_cell(p, false, 5) == 0 && table_cell(p, true, 5) == 0);
    if pair_codes_allowed(x, y) {
        let t: int = if x == 1 {
            0
        } else if x == 4 {
            1
        } else if x == 0 {
            2
        } else if x == 2 {
            3
        } else {
            4
        };
        assert(table_cell(p, false, t) == x && table_cell(p, true, t) == y);
    }
}

/// The rows of the vertical-transition table, as codes, are exactly the legal
/// steps.
proof fn lemma_step_rows(x: nat, y: nat)
    ensures
        step_codes_allowed(x, y) <==> exists|t: int|
            0 <= t < 9 && #[trigger] table_cell(transitions(), false, t) == x && table_cell(
                transitions(),
                true,
                t,
            ) == y,
{
    let p = transitions();
    assert(p.len() == 9);
    assert(table_cell(p, false, 0) == 0 && table_cell(p, true, 0) == 0);
    assert(table_cell(p, false, 1) == 0 && table_cell(p, true, 1) == 1);
    assert(table_cell(p, false, 2) == 0 && table_cell(p, true, 2) == 4);
    assert(table_cell(p, false, 3) == 0 && table_cell(p, true, 3) == 2);
    assert(table_cell(p, false, 4) == 0 && table_cell(p, true, 4) == 3);
    assert(table_cell(p, false, 5) == 2 && table_cell(p, true, 5) == 2);
    assert(table_cell(p, false, 6) == 2 && table_cell(p, true, 6) == 3);
    assert(table_cell(p, false, 7) == 3 && table_cell(p, true, 7) == 4);
    assert(table_cell(p, false, 8) == 3 && table_cell(p, true, 8) == 1);
    if step_codes_allowed(x, y) {
        let t: int = if x == 0 {
            if y == 0 {
                0
            } else if y == 1 {
                1
            } else if y == 4 {
                2
            } else if y == 2 {
                3
            } else {
                4
            }
        } else if x == 2 {
            if y == 2 {
                5
            } else {
                6
            }
        } else {
            if y == 4 {
                7
            } else {
                8
            }
        };
        assert(table_cell(p, false, t) == x && table_cell(p, true, t) == y);
    }
}

/// The type-pairing lookup succeeds at a row exactly where the old and the new
/// role of the row are a legal pair.
pub proof fn lemma_pair_lookup(cols: OpColumns, config: MPTOpChipConfig, trace: Trace, row: int)
    requires
        trace.wf(),
        tables_loaded(config, trace),
    ensures
        lookup_holds_at(op_lookups(cols, config)[2], trace, row) <==> pair_codes_allowed(
            trace.advice_at(cols.old_hash_type.0 as int, row),
            trace.advice_at(cols.new_hash_type.0 as int, row),
        ),
{
    reveal_with_fuel(Query::value_at, 2);
    let pairs = op_lookups(cols, config)[2].pairs;
    let x = trace.advice_at(cols.old_hash_type.0 as int, row);
    let y = trace.advice_at(cols.new_hash_type.0 as int, row);
    lemma_pair_rows(x, y);
    assert(pairs.len() == 2);
    assert forall|t: int| 0 <= t < trace.rows implies (#[trigger] lookup_matches(pairs, trace, row, t)
        <==> table_cell(type_pairs(), false, t) == x && table_cell(type_pairs(), true, t) == y) by {
        assert(trace.fixed_at(config.trans_table.0.0 as int, t) == table_cell(transitions(), false, t));
        if lookup_matches(pairs, trace, row, t) {
            assert(pairs[0].0.value_at(trace, row) == pairs[0].1.value_at(trace, t));
            assert(pairs[1].0.value_at(trace, row) == pairs[1].1.value_at(trace, t));
        }
    }
    if pair_codes_allowed(x, y) {
        let t = choose|t: int|
            0 <= t < 9 && #[trigger] table_cell(type_pairs(), false, t) == x && table_cell(
                type_pairs(),
                true,
                t,
            ) == y;
        assert(lookup_matches(pairs, trace, row, t));
    }
    if lookup_holds_at(op_lookups(cols, config)[2], trace, row) {
        let t = choose|t: int| 0 <= t < trace.rows && #[trigger] lookup_matches(pairs, trace, row, t);
        assert(table_cell(type_pairs(), false, t) == x && table_cell(type_pairs(), true, t) == y);
        assert(table_cell(type_pairs(), false, 5) == 0 && table_cell(type_pairs(), true, 5) == 0);
        if t >= 9 {
            assert(table_cell(type_pairs(), false, 5) == x);
        }
    }
}

/// What the masked lookup of a role column's step reads at a row: zeros at the
/// first row of an operation, and the roles of the row above and of the row
/// elsewhere.
pub open spec fn masked_step(config: MPTOpChipConfig, roles: AdviceColumn, trace: Trace, row: int) -> (
    nat,
    nat,
) {
    if trace.advice_at(config.is_first.0 as int, row) == 1 {
        (0, 0)
    } else {
        (trace.advice_at(roles.0 as int, row - 1), trace.advice_at(roles.0 as int, row))
    }
}

/// The lookup of a role column's step succeeds at a row exactly where what it
/// reads there, behind the mask, is a legal step.
pub proof fn lemma_step_lookup(
    config: MPTOpChipConfig,
    roles: AdviceColumn,
    name: Seq<char>,
    trace: Trace,
    row: int,
)
    requires
        trace.wf(),
        tables_loaded(config, trace),
        is_bit(trace.advice_at(config.is_first.0 as int, row)),
    ensures
        lookup_holds_at(LookupView { name, pairs: transition_pairs(config, roles) }, trace, row)
            <==> step_codes_allowed(
            masked_step(config, roles, trace, row).0,
            masked_step(config, roles, trace, row).1,
        ),
{
    reveal_with_fuel(Query::value_at, 5);
    let pairs = transition_pairs(config, roles);
    let first = trace.advice_at(config.is_first.0 as int, row);
    let above = trace.advice_at(roles.0 as int, row - 1);
    let here = trace.advice_at(roles.0 as int, row);
    trace.lemma_cell_bound(roles.0 as int, row - 1);
    trace.lemma_cell_bound(roles.0 as int, row);
    lemma_switch(first, 0);
    lemma_switch(sub_mod(1, first), above);
    lemma_switch(sub_mod(1, first), here);
    lemma_additive(1, first);
    let x = masked_step(config, roles, trace, row).0;
    let y = masked_step(config, roles, trace, row).1;
    assert(pairs[0].0.value_at(trace, row) == x);
    assert(pairs[1].0.value_at(trace, row) == y);
    lemma_step_rows(x, y);
    assert(pairs.len() == 2);
    assert forall|t: int| 0 <= t < trace.rows implies (#[trigger] lookup_matches(pairs, trace, row, t)
        <==> table_cell(transitions(), false, t) == x && table_cell(transitions(), true, t) == y) by {
        assert(trace.fixed_at(config.trans_table.0.0 as int, t) == table_cell(transitions(), false, t));
        if lookup_matches(pairs, trace, row, t) {
            assert(pairs[0].0.value_at(trace, row) == pairs[0].1.value_at(trace, t));
            assert(pairs[1].0.value_at(trace, row) == pairs[1].1.value_at(trace, t));
        }
    }
    let lookup = LookupView { name, pairs };
    if step_codes_allowed(x, y) {
        let t = choose|t: int|
            0 <= t < 9 && #[trigger] table_cell(transitions(), false, t) == x && table_cell(
                transitions(),
                true,
                t,
            ) == y;
        assert(lookup_matches(pairs, trace, row, t));
        assert(0 <= t < trace.rows);
        assert(lookup.pairs == pairs);
        assert(lookup_holds_at(lookup, trace, row));
    }
    if lookup_holds_at(lookup, trace, row) {
        let t = choose|t: int| 0 <= t < trace.rows && #[trigger] lookup_matches(pairs, trace, row, t);
        assert(table_cell(transitions(), false, t) == x && table_cell(transitions(), true, t) == y);
        assert(table_cell(transitions(), false, 0) == 0 && table_cell(transitions(), true, 0) == 0);
        if t >= 9 {
            assert(table_cell(transitions(), false, 0) == x);
        }
    }
}

} // verus!
