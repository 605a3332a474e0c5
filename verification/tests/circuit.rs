use halo2_mpt_circuits::column::{AdviceColumn, Assigned};
use halo2_mpt_circuits::constraint_system::ConstraintSystem;
use halo2_mpt_circuits::field::{Fe, MODULUS_0, MODULUS_1, MODULUS_2, MODULUS_3};
use halo2_mpt_circuits::hash_type::HashType;
use halo2_mpt_circuits::mpt::{AssignError, MptCircuitConfig, Operation};
use halo2_mpt_circuits::query::Query;
use halo2_mpt_circuits::region::Region;

fn fp(x: u64) -> Fe {
    Fe::from_u64(x)
}

fn leaf(old_root: u64, new_root: u64) -> Operation {
    Operation {
        siblings: vec![fp(0)],
        old_hash: vec![fp(old_root)],
        new_hash: vec![fp(new_root)],
        path: vec![fp(4)],
        old_hash_type: vec![HashType::Empty],
        new_hash_type: vec![HashType::Leaf],
    }
}

fn configured() -> (ConstraintSystem, MptCircuitConfig) {
    let mut cs = ConstraintSystem::new();
    let config = MptCircuitConfig::configure(&mut cs);
    (cs, config)
}

#[test]
fn the_circuit_has_ten_gates_and_three_lookups() {
    let (cs, _) = configured();
    assert_eq!(cs.num_gates(), 10);
    assert_eq!(cs.num_lookups(), 3);
    let names: Vec<&str> = (0..10).map(|g| cs.gate_name(g)).collect();
    assert_eq!(
        names,
        vec![
            "is_first is a bit",
            "a boundary follows a leaf",
            "path is a bit above a leaf",
            "key restarts",
            "key accumulates",
            "root restarts",
            "root is held",
            "operations continue",
            "depth restarts",
            "depth doubles",
        ]
    );
    let names: Vec<&str> = (0..3).map(|l| cs.lookup_name(l)).collect();
    assert_eq!(
        names,
        vec!["old role steps", "new role steps", "old and new role pair"]
    );
    for lookup in 0..3 {
        assert_eq!(cs.lookup_width(lookup), 2);
    }
}

#[test]
fn the_continuity_gate_reads_the_old_hash_and_the_root_above() {
    let (cs, config) = configured();
    let mut region = Region::new(10, 5, 4);
    let gate = cs.gate_poly(7);
    config.cols.s_row.enable(&mut region, 2);
    config.chip.is_first.assign(&mut region, 2, fp(1));
    config.cols.old_hash.assign(&mut region, 2, fp(9));
    config.chip.root_aux.assign(&mut region, 1, fp(4));
    // s_row * is_first * (old_hash - root_aux.prev)
    assert_eq!(gate.eval(&region, 2), fp(5));
    config.chip.is_first.assign(&mut region, 2, fp(0));
    assert_eq!(gate.eval(&region, 2), fp(0));
    assert_eq!(gate.eval(&region, 1), fp(0));
}

#[test]
fn the_transition_lookup_is_masked_by_the_flag() {
    let (cs, config) = configured();
    let mut region = Region::new(10, 5, 4);
    config.cols.new_hash_type.assign(&mut region, 1, fp(3));
    config.cols.new_hash_type.assign(&mut region, 2, fp(4));
    let (above, table_above) = cs.lookup_pair(1, 0);
    let (here, table_here) = cs.lookup_pair(1, 1);
    assert_eq!(above.eval(&region, 2), fp(3));
    assert_eq!(here.eval(&region, 2), fp(4));
    config.chip.is_first.assign(&mut region, 2, fp(1));
    assert_eq!(above.eval(&region, 2), fp(0));
    assert_eq!(here.eval(&region, 2), fp(0));
    config.chip.trans_table.0.assign(&mut region, 3, fp(7));
    config.chip.trans_table.1.assign(&mut region, 3, fp(8));
    assert_eq!(table_above.eval(&region, 3), fp(7));
    assert_eq!(table_here.eval(&region, 3), fp(8));
}

#[test]
fn the_lookup_expressions_read_the_row_of_an_operation() {
    let (_, config) = configured();
    let region = config.synthesize(&vec![leaf(5, 11), leaf(11, 12)], 16).unwrap();
    let read = |row: usize| -> Vec<Fe> {
        config
            .lookup_exprs()
            .iter()
            .map(|q: &Query| q.eval(&region, row))
            .collect()
    };
    // selector, flag, root before, root after, key, path, old hash, new hash
    assert_eq!(
        read(1),
        vec![fp(1), fp(1), fp(5), fp(11), fp(4), fp(4), fp(5), fp(11)]
    );
    assert_eq!(
        read(2),
        vec![fp(1), fp(1), fp(11), fp(12), fp(4), fp(4), fp(11), fp(12)]
    );
    assert_eq!(
        read(3),
        vec![fp(0), fp(1), fp(12), fp(0), fp(0), fp(0), fp(0), fp(0)]
    );
}

#[test]
fn synthesize_assigns_a_batch_that_verifies() {
    let (cs, config) = configured();
    let region = config.synthesize(&vec![leaf(0, 11), leaf(11, 12)], 16).unwrap();
    assert_eq!(region.rows(), 16);
    assert_eq!(region.num_advice(), 10);
    assert_eq!(region.num_fixed(), 5);
    assert_eq!(cs.verify(&region), Ok(()));
}

#[test]
fn an_empty_batch_is_refused() {
    let (_, config) = configured();
    assert_eq!(config.synthesize(&vec![], 16).err(), Some(AssignError::EmptyBatch));
}

#[test]
fn a_malformed_operation_is_refused() {
    let (_, config) = configured();
    let mut short = leaf(11, 12);
    short.path.clear();
    assert!(!short.is_wf());
    assert_eq!(
        config.synthesize(&vec![leaf(0, 11), short], 16).err(),
        Some(AssignError::MalformedOperation(1))
    );
    let mut long = leaf(0, 11);
    long.siblings.push(fp(0));
    assert_eq!(
        config.synthesize(&vec![long, leaf(11, 12)], 16).err(),
        Some(AssignError::MalformedOperation(0))
    );
    let empty = Operation {
        siblings: vec![],
        old_hash: vec![],
        new_hash: vec![],
        path: vec![],
        old_hash_type: vec![],
        new_hash_type: vec![],
    };
    assert_eq!(
        config.synthesize(&vec![empty], 16).err(),
        Some(AssignError::MalformedOperation(0))
    );
    let mut wide = leaf(0, 11);
    wide.new_hash[0] = Fe {
        l0: MODULUS_0,
        l1: MODULUS_1,
        l2: MODULUS_2,
        l3: MODULUS_3,
    };
    assert!(!wide.new_hash[0].is_canonical());
    assert_eq!(
        config.synthesize(&vec![wide], 16).err(),
        Some(AssignError::MalformedOperation(0))
    );
    assert!(leaf(0, 11).is_wf());
}

#[test]
fn a_batch_beyond_the_rows_is_refused() {
    let (cs, config) = configured();
    // seven nodes, the head row and the row behind them take nine rows
    let ops = || (0..7).map(|i| leaf(i, i + 1)).collect::<Vec<_>>();
    let region = config.synthesize(&ops(), 9).unwrap();
    assert_eq!(cs.verify(&region), Ok(()));
    let ops = || (0..8).map(|i| leaf(i, i + 1)).collect::<Vec<_>>();
    assert_eq!(config.synthesize(&ops(), 9).err(), Some(AssignError::NotEnoughRows));
    assert!(config.synthesize(&ops(), 10).is_ok());
    // the tables take nine rows
    assert_eq!(
        config.synthesize(&vec![leaf(0, 1)], 8).err(),
        Some(AssignError::NotEnoughRows)
    );
    assert_eq!(
        config.synthesize(&vec![leaf(0, 1)], 0).err(),
        Some(AssignError::NotEnoughRows)
    );
}

#[test]
fn a_fraction_is_assigned_as_its_quotient() {
    let mut region = Region::new(1, 0, 8);
    let column = AdviceColumn(0);
    column.assign_rational(&mut region, 0, Assigned::Zero);
    column.assign_rational(&mut region, 1, Assigned::Trivial(fp(7)));
    column.assign_rational(&mut region, 2, Assigned::Rational(fp(12), fp(1)));
    column.assign_rational(&mut region, 3, Assigned::Rational(fp(12), fp(4)));
    column.assign_rational(&mut region, 4, Assigned::Rational(fp(12), fp(0)));
    column.assign_rational(&mut region, 5, Assigned::Rational(fp(1), fp(2)));
    assert_eq!(region.advice(0, 0), fp(0));
    assert_eq!(region.advice(0, 1), fp(7));
    assert_eq!(region.advice(0, 2), fp(12));
    assert_eq!(region.advice(0, 3), fp(3));
    assert_eq!(region.advice(0, 4), fp(0));
    // one half is half of the modulus and one
    assert_eq!(
        region.advice(0, 5).to_limbs(),
        [
            0xa1f0fac9f8000001,
            0x9419f4243cdcb848,
            0xdc2822db40c0ac2e,
            0x183227397098d014
        ]
    );
    // and twice one half is one
    let twice = Query::from_u64(2).times(column.current());
    assert_eq!(twice.eval(&region, 5), fp(1));
    assert_eq!(Assigned::Rational(fp(10), fp(5)).evaluate(), fp(2));
}
