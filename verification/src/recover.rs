//! Reading the operations of a batch back from a region.

use crate::field::Fe;
use crate::hash_type::{role_of, HashType};
use crate::mpt::{
    all_ops_wf, batch_cell, batch_fixed_cell, flat, is_assignment, lemma_flat_step, ops_view,
    total_len, MptCircuitConfig, Operation, OperationView,
};
use crate::region::{Region, Trace};
use vstd::prelude::*;

verus! {

/// The number of rows from `from` on, without a gap, at which the selector is
/// on.
pub open spec fn count_active(config: MptCircuitConfig, trace: Trace, from: int) -> nat
    decreases trace.rows - from,
{
    if 0 <= from < trace.rows && trace.fixed_at(config.cols.s_row.0 as int, from) == 1 {
        1 + count_active(config, trace, from + 1)
    } else {
        0
    }
}

/// The two role cells of a row hold codes of roles.
pub open spec fn row_decodable(config: MptCircuitConfig, trace: Trace, row: int) -> bool {
    &&& role_of(trace.advice_at(config.cols.old_hash_type.0 as int, row)).is_some()
    &&& role_of(trace.advice_at(config.cols.new_hash_type.0 as int, row)).is_some()
}

/// The role cells of rows 1 to `n` hold codes of roles.
pub open spec fn rows_decodable(config: MptCircuitConfig, trace: Trace, n: nat) -> bool {
    forall|row: int| 1 <= row <= n ==> #[trigger] row_decodable(config, trace, row)
}

/// An operation with one node more, read from a row.
pub open spec fn with_row(op: OperationView, config: MptCircuitConfig, trace: Trace, row: int) -> OperationView {
    OperationView {
        old_hash_type: op.old_hash_type.push(
            role_of(trace.advice_at(config.cols.old_hash_type.0 as int, row)).unwrap(),
        ),
        new_hash_type: op.new_hash_type.push(
            role_of(trace.advice_at(config.cols.new_hash_type.0 as int, row)).unwrap(),
        ),
        path: op.path.push(trace.advice_at(config.cols.path.0 as int, row)),
        old_hash: op.old_hash.push(trace.advice_at(config.cols.old_hash.0 as int, row)),
        new_hash: op.new_hash.push(trace.advice_at(config.cols.new_hash.0 as int, row)),
        siblings: op.siblings.push(trace.advice_at(config.cols.sibling.0 as int, row)),
    }
}

/// An operation without nodes.
pub open spec fn no_nodes() -> OperationView {
    OperationView {
        old_hash_type: Seq::empty(),
        new_hash_type: Seq::empty(),
        path: Seq::empty(),
        old_hash: Seq::empty(),
        new_hash: Seq::empty(),
        siblings: Seq::empty(),
    }
}

/// The operations that rows 1 to `n` of a trace hold: a row starts an
/// operation if it is row 1 or its flag is set, and adds a node to the
/// operation of the row above if not.
pub open spec fn regroup(config: MptCircuitConfig, trace: Trace, n: nat) -> Seq<OperationView>
    decreases n,
{
    if n == 0 {
        Seq::empty()
    } else {
        let above = regroup(config, trace, (n - 1) as nat);
        if n == 1 || trace.advice_at(config.chip.is_first.0 as int, n as int) == 1 {
            above.push(with_row(no_nodes(), config, trace, n as int))
        } else {
            above.drop_last().push(with_row(above.last(), config, trace, n as int))
        }
    }
}

/// The role that a cell stands for, if any.
fn decode_role(cell: &Fe) -> (role: Option<HashType>)
    ensures
        role == role_of(cell@),
{
    if cell.l1 == 0 && cell.l2 == 0 && cell.l3 == 0 {
        HashType::from_u64(cell.l0)
    } else {
        None
    }
}

/// Where the selector is on from `from` up to `to`, the rows counted from
/// `from` are those up to `to` and those counted from `to`.
pub proof fn lemma_count_split(config: MptCircuitConfig, trace: Trace, from: int, to: int)
    requires
        0 <= from <= to <= trace.rows,
        forall|r: int| from <= r < to ==> #[trigger] trace.fixed_at(config.cols.s_row.0 as int, r) == 1,
    ensures
        count_active(config, trace, from) == (to - from) + count_active(config, trace, to),
    decreases to - from,
{
    if from < to {
        assert(trace.fixed_at(config.cols.s_row.0 as int, from) == 1);
        lemma_count_split(config, trace, from + 1, to);
    }
}

impl MptCircuitConfig {
    /// Reads the batch back from a region: the rows from row 1 on at which the
    /// selector is on, grouped into operations by the flag. Gives `None` if a
    /// role cell of such a row holds no role.
    pub fn read_operations(&self, region: &Region) -> (result: Option<Vec<Operation>>)
        requires
            region.wf(),
            self.fits(region@),
        ensures
            match result {
                Some(ops) => {
                    &&& rows_decodable(*self, region@, count_active(*self, region@, 1))
                    &&& ops_view(ops@) == regroup(*self, region@, count_active(*self, region@, 1))
                    &&& all_ops_wf(ops@)
                },
                None => !rows_decodable(*self, region@, count_active(*self, region@, 1)),
            },
    {
        let rows = region.rows();
        let mut ops: Vec<Operation> = Vec::new();
        let mut cur = Operation {
            old_hash_type: Vec::new(),
            new_hash_type: Vec::new(),
            path: Vec::new(),
            old_hash: Vec::new(),
            new_hash: Vec::new(),
            siblings: Vec::new(),
        };
        assert(cur@ =~= no_nodes()) by {
            assert(cur@.path =~= Seq::<nat>::empty());
            assert(cur@.old_hash =~= Seq::<nat>::empty());
            assert(cur@.new_hash =~= Seq::<nat>::empty());
            assert(cur@.siblings =~= Seq::<nat>::empty());
        }
        assert(ops_view(ops@) =~= Seq::<OperationView>::empty());
        let mut row: usize = 1;
        loop
            invariant
                1 <= row,
                rows == region@.rows,
                region.wf(),
                self.fits(region@),
                row <= rows || row == 1,
                forall|r: int|
                    1 <= r < row ==> #[trigger] region@.fixed_at(self.cols.s_row.0 as int, r) == 1,
                rows_decodable(*self, region@, (row - 1) as nat),
                all_ops_wf(ops@),
                row == 1 ==> ops@.len() == 0 && cur@ == no_nodes(),
                row > 1 ==> cur.wf() && ops_view(ops@).push(cur@) == regroup(
                    *self,
                    region@,
                    (row - 1) as nat,
                ),
            ensures
                row >= rows || region@.fixed_at(self.cols.s_row.0 as int, row as int) != 1,
            decreases rows - row,
        {
            if row >= rows {
                break ;
            }
            if !region.fixed(self.cols.s_row.0, row).is_one() {
                break ;
            }
            let old_role = decode_role(&region.advice(self.cols.old_hash_type.0, row));
            let new_role = decode_role(&region.advice(self.cols.new_hash_type.0, row));
            if old_role.is_none() || new_role.is_none() {
                proof {
                    lemma_count_split(*self, region@, 1, row as int);
                    assert(!row_decodable(*self, region@, row as int));
                }
                return None;
            }
            let ghost above = regroup(*self, region@, (row - 1) as nat);
            let ghost before = cur@;
            if row == 1 || region.advice(self.chip.is_first.0, row).is_one() {
                if row > 1 {
                    let ghost done = ops_view(ops@);
                    ops.push(cur);
                    assert(ops_view(ops@) =~= done.push(before));
                    cur = Operation {
                        old_hash_type: Vec::new(),
                        new_hash_type: Vec::new(),
                        path: Vec::new(),
                        old_hash: Vec::new(),
                        new_hash: Vec::new(),
                        siblings: Vec::new(),
                    };
                    assert(cur@ =~= no_nodes()) by {
                        assert(cur@.path =~= Seq::<nat>::empty());
                        assert(cur@.old_hash =~= Seq::<nat>::empty());
                        assert(cur@.new_hash =~= Seq::<nat>::empty());
                        assert(cur@.siblings =~= Seq::<nat>::empty());
                    }
                }
                assert(ops_view(ops@) == above);
            } else {
                assert(above.drop_last() =~= ops_view(ops@));
                assert(above.last() == before);
            }
            let ghost start = cur@;
            let ghost start_op = cur;
            cur.old_hash_type.push(old_role.unwrap());
            cur.new_hash_type.push(new_role.unwrap());
            cur.path.push(region.advice(self.cols.path.0, row));
            cur.old_hash.push(region.advice(self.cols.old_hash.0, row));
            cur.new_hash.push(region.advice(self.cols.new_hash.0, row));
            cur.siblings.push(region.advice(self.cols.sibling.0, row));
            proof {
                let next = with_row(start, *self, region@, row as int);
                assert(cur@.path =~= next.path);
                assert(cur@.old_hash =~= next.old_hash);
                assert(cur@.new_hash =~= next.new_hash);
                assert(cur@.siblings =~= next.siblings);
                assert(cur@ == next);
                assert(row_decodable(*self, region@, row as int));
            }
            row = row + 1;
        }
        proof {
            assert(count_active(*self, region@, row as int) == 0);
            if row <= rows {
                lemma_count_split(*self, region@, 1, row as int);
            } else {
                assert(count_active(*self, region@, 1) == 0);
            }
        }
        let ghost n = count_active(*self, region@, 1);
        assert(n == row - 1);
        if row > 1 {
            let ghost done = ops_view(ops@);
            let ghost last = cur@;
            let ghost before = ops@;
            ops.push(cur);
            assert(ops_view(ops@) =~= done.push(last));
            assert forall|k: int| 0 <= k < ops@.len() implies (#[trigger] ops@[k]).wf() by {
                if k < before.len() {
                    assert(ops@[k] == before[k]);
                }
            }
        } else {
            assert(ops_view(ops@) =~= Seq::<OperationView>::empty());
        }
        assert(all_ops_wf(ops@));
        assert(ops_view(ops@) == regroup(*self, region@, n));
        assert(rows_decodable(*self, region@, n));
        Some(ops)
    }
}

/// The operation has exactly one leaf among its new roles, at its last node.
pub open spec fn one_run(op: Operation) -> bool {
    &&& op.len() > 0
    &&& op.new_hash_type[op.len() - 1] == HashType::Leaf
    &&& forall|i: int| 0 <= i < op.len() - 1 ==> #[trigger] op.new_hash_type[i] != HashType::Leaf
}

/// The first `count` nodes of an operation, as numbers.
pub open spec fn prefix_view(op: Operation, count: int) -> OperationView {
    OperationView {
        old_hash_type: op@.old_hash_type.take(count),
        new_hash_type: op@.new_hash_type.take(count),
        path: op@.path.take(count),
        old_hash: op@.old_hash.take(count),
        new_hash: op@.new_hash.take(count),
        siblings: op@.siblings.take(count),
    }
}

/// The nodes of the first operations of a batch are the first nodes of the
/// batch.
pub proof fn lemma_flat_prefix(ops: Seq<Operation>, m: int)
    requires
        0 <= m <= ops.len(),
    ensures
        flat(ops.take(m)).len() <= flat(ops).len(),
        forall|j: int| 0 <= j < flat(ops.take(m)).len() ==> flat(ops.take(m))[j] == #[trigger] flat(ops)[j],
    decreases ops.len() - m,
{
    if m == ops.len() {
        assert(ops.take(m) =~= ops);
    } else {
        lemma_flat_step(ops, m);
        lemma_flat_prefix(ops, m + 1);
        let shorter = flat(ops.take(m));
        let longer = flat(ops.take(m + 1));
        assert forall|j: int| 0 <= j < shorter.len() implies shorter[j] == #[trigger] flat(ops)[j] by {
            assert(longer[j] == shorter[j]);
        }
    }
}

/// Node `i` of operation `k` of a batch is the node of the batch that as many
/// nodes precede as the operations before `k` have together, and `i` more.
pub proof fn lemma_flat_index(ops: Seq<Operation>, k: int, i: int)
    requires
        0 <= k < ops.len(),
        0 <= i < ops[k].len(),
    ensures
        total_len(ops.take(k)) + i < flat(ops).len(),
        flat(ops)[total_len(ops.take(k)) + i] == ops[k].node(i),
{
    lemma_flat_step(ops, k);
    lemma_flat_prefix(ops, k + 1);
    let longer = flat(ops.take(k + 1));
    let j = total_len(ops.take(k)) + i;
    assert(longer[j] == ops[k].nodes()[i]);
    assert(flat(ops)[j] == longer[j]);
}

/// What the rows of the first `i` nodes of operation `k` regroup to, in the
/// witness of a batch whose operations have one leaf each, at the end: the
/// operations before `k`, and the first `i` nodes of operation `k`.
proof fn lemma_regroup_step(
    config: MptCircuitConfig,
    ops: Seq<Operation>,
    start_root: nat,
    trace: Trace,
    k: int,
    i: int,
)
    requires
        all_ops_wf(ops),
        forall|m: int| 0 <= m < ops.len() ==> one_run(#[trigger] ops[m]),
        is_assignment(config, flat(ops), start_root, trace),
        0 <= k < ops.len(),
        1 <= i <= ops[k].len(),
    ensures
        regroup(config, trace, (total_len(ops.take(k)) + i) as nat) == ops_view(ops.take(k)).push(
            prefix_view(ops[k], i),
        ),
    decreases k, i,
{
    let nodes = flat(ops);
    let before = total_len(ops.take(k));
    let row = before + i;
    let op = ops[k];
    assert(op.wf());
    assert(one_run(op));
    lemma_flat_index(ops, k, i - 1);
    let node = nodes[row - 1];
    assert(node == op.node(i - 1));
    assert(row < trace.rows);
    assert(trace.advice_at(config.cols.old_hash_type.0 as int, row) == batch_cell(
        config,
        nodes,
        start_root,
        config.cols.old_hash_type.0 as int,
        row,
    ));
    assert(trace.advice_at(config.cols.new_hash_type.0 as int, row) == batch_cell(
        config,
        nodes,
        start_root,
        config.cols.new_hash_type.0 as int,
        row,
    ));
    assert(trace.advice_at(config.cols.path.0 as int, row) == batch_cell(
        config,
        nodes,
        start_root,
        config.cols.path.0 as int,
        row,
    ));
    assert(trace.advice_at(config.cols.old_hash.0 as int, row) == batch_cell(
        config,
        nodes,
        start_root,
        config.cols.old_hash.0 as int,
        row,
    ));
    assert(trace.advice_at(config.cols.new_hash.0 as int, row) == batch_cell(
        config,
        nodes,
        start_root,
        config.cols.new_hash.0 as int,
        row,
    ));
    assert(trace.advice_at(config.cols.sibling.0 as int, row) == batch_cell(
        config,
        nodes,
        start_root,
        config.cols.sibling.0 as int,
        row,
    ));
    assert(trace.advice_at(config.chip.is_first.0 as int, row) == batch_cell(
        config,
        nodes,
        start_root,
        config.chip.is_first.0 as int,
        row,
    ));
    node.old_type.lemma_role_of_code(0);
    node.new_type.lemma_role_of_code(0);
    let shorter = prefix_view(op, i - 1);
    let longer = prefix_view(op, i);
    assert(with_row(shorter, config, trace, row) == longer) by {
        let w = with_row(shorter, config, trace, row);
        assert(w.old_hash_type =~= longer.old_hash_type);
        assert(w.new_hash_type =~= longer.new_hash_type);
        assert(w.path =~= longer.path);
        assert(w.old_hash =~= longer.old_hash);
        assert(w.new_hash =~= longer.new_hash);
        assert(w.siblings =~= longer.siblings);
    }
    let done = ops_view(ops.take(k));
    if i == 1 {
        assert(shorter == no_nodes()) by {
            assert(shorter.old_hash_type =~= no_nodes().old_hash_type);
            assert(shorter.new_hash_type =~= no_nodes().new_hash_type);
            assert(shorter.path =~= no_nodes().path);
            assert(shorter.old_hash =~= no_nodes().old_hash);
            assert(shorter.new_hash =~= no_nodes().new_hash);
            assert(shorter.siblings =~= no_nodes().siblings);
        }
        if k == 0 {
            assert(ops.take(0).len() == 0);
            assert(before == 0);
            assert(done =~= Seq::<OperationView>::empty());
            assert(regroup(config, trace, 0) =~= Seq::<OperationView>::empty());
        } else {
            let above = ops[k - 1];
            assert(above.wf());
            assert(one_run(above));
            lemma_flat_step(ops, k - 1);
            lemma_regroup_step(config, ops, start_root, trace, k - 1, above.len() as int);
            lemma_full_prefix(above);
            assert(ops_view(ops.take(k - 1)).push(above@) =~= done);
            lemma_flat_index(ops, k - 1, above.len() - 1);
            assert(nodes[row - 2] == above.node(above.len() - 1));
        }
    } else {
        lemma_regroup_step(config, ops, start_root, trace, k, i - 1);
        lemma_flat_index(ops, k, i - 2);
        assert(nodes[row - 2] == op.node(i - 2));
        let above = regroup(config, trace, (row - 1) as nat);
        assert(above == done.push(shorter));
        assert(above.drop_last() =~= done);
        assert(above.last() == shorter);
    }
}

/// All the nodes of an operation are the operation.
pub proof fn lemma_full_prefix(op: Operation)
    requires
        op.wf(),
    ensures
        prefix_view(op, op.len() as int) == op@,
{
    let p = prefix_view(op, op.len() as int);
    assert(p.old_hash_type =~= op@.old_hash_type);
    assert(p.new_hash_type =~= op@.new_hash_type);
    assert(p.path =~= op@.path);
    assert(p.old_hash =~= op@.old_hash);
    assert(p.new_hash =~= op@.new_hash);
    assert(p.siblings =~= op@.siblings);
}

/// Reading back the witness of a batch gives the batch: if every operation
/// has one leaf among its new roles, at its last node, then the selector is on
/// at the rows of the nodes and nowhere behind them, every role cell there
/// holds a role, and the rows regroup to the operations of the batch.
pub proof fn lemma_round_trip(
    config: MptCircuitConfig,
    ops: Seq<Operation>,
    start_root: nat,
    trace: Trace,
)
    requires
        all_ops_wf(ops),
        forall|m: int| 0 <= m < ops.len() ==> one_run(#[trigger] ops[m]),
        is_assignment(config, flat(ops), start_root, trace),
    ensures
        count_active(config, trace, 1) == flat(ops).len(),
        rows_decodable(config, trace, flat(ops).len()),
        regroup(config, trace, flat(ops).len()) == ops_view(ops),
{
    let nodes = flat(ops);
    let n = nodes.len() as int;
    assert forall|r: int| 1 <= r < n + 1 implies #[trigger] trace.fixed_at(
        config.cols.s_row.0 as int,
        r,
    ) == 1 by {
        assert(trace.fixed_at(config.cols.s_row.0 as int, r) == batch_fixed_cell(
            config,
            nodes.len(),
            config.cols.s_row.0 as int,
            r,
        ));
    }
    assert(trace.fixed_at(config.cols.s_row.0 as int, n + 1) == batch_fixed_cell(
        config,
        nodes.len(),
        config.cols.s_row.0 as int,
        n + 1,
    ));
    lemma_count_split(config, trace, 1, n + 1);
    assert forall|row: int| 1 <= row <= n implies #[trigger] row_decodable(config, trace, row) by {
        assert(trace.advice_at(config.cols.old_hash_type.0 as int, row) == batch_cell(
            config,
            nodes,
            start_root,
            config.cols.old_hash_type.0 as int,
            row,
        ));
        assert(trace.advice_at(config.cols.new_hash_type.0 as int, row) == batch_cell(
            config,
            nodes,
            start_root,
            config.cols.new_hash_type.0 as int,
            row,
        ));
        nodes[row - 1].old_type.lemma_role_of_code(0);
        nodes[row - 1].new_type.lemma_role_of_code(0);
    }
    if ops.len() == 0 {
        assert(ops_view(ops) =~= Seq::<OperationView>::empty());
    } else {
        let k = ops.len() - 1;
        let last = ops[k];
        assert(last.wf());
        lemma_regroup_step(config, ops, start_root, trace, k, last.len() as int);
        lemma_full_prefix(last);
        lemma_flat_step(ops, k);
        assert(ops.take(k + 1) =~= ops);
        assert(ops_view(ops.take(k)).push(last@) =~= ops_view(ops));
    }
}

} // verus!
