use halo2_mpt_circuits::constraint_system::{ConstraintSystem, VerifyFailure};
use halo2_mpt_circuits::field::Fe;
use halo2_mpt_circuits::hash_type::HashType;
use halo2_mpt_circuits::mpt::{MptCircuitConfig, Operation};
use halo2_mpt_circuits::region::Region;

fn fp(x: u64) -> Fe {
    Fe::from_u64(x)
}

// Stands in for a hash that the scenario leaves open.
fn some_fp(seed: u64) -> Fe {
    Fe::from_u128(0x9e37_79b9_7f4a_7c15_f39c_c060_5ced_c834u128.wrapping_mul(seed as u128 + 1))
}

fn demo_circuit_1() -> Operation {
    Operation {
        siblings: vec![fp(0)],
        old_hash: vec![fp(0)],
        new_hash: vec![fp(11)],
        path: vec![fp(4)], // the key is 0b100
        old_hash_type: vec![HashType::Empty],
        new_hash_type: vec![HashType::Leaf],
    }
}

fn demo_circuit_2() -> Operation {
    Operation {
        siblings: vec![fp(11), some_fp(1)],
        old_hash: vec![fp(11), fp(0)],
        new_hash: vec![fp(22), some_fp(2)],
        path: vec![fp(1), fp(8)], // the key is 0b10001
        old_hash_type: vec![HashType::LeafExtFinal, HashType::Empty],
        new_hash_type: vec![HashType::Middle, HashType::Leaf],
    }
}

fn demo_circuit_3() -> Operation {
    let siblings = vec![fp(11), fp(0), fp(22), some_fp(3)];
    let mut old_hash = vec![fp(22)];
    let mut new_hash = vec![fp(33)];
    for i in 0..3 {
        old_hash.push(some_fp(10 + i));
        new_hash.push(some_fp(20 + i));
    }
    Operation {
        siblings,
        old_hash,
        new_hash,
        path: vec![fp(1), fp(0), fp(1), fp(5)], // the key is 0b101101
        old_hash_type: vec![
            HashType::Middle,
            HashType::LeafExt,
            HashType::LeafExtFinal,
            HashType::Empty,
        ],
        new_hash_type: vec![
            HashType::Middle,
            HashType::Middle,
            HashType::Middle,
            HashType::Leaf,
        ],
    }
}

fn prove(k: u32, ops: Vec<Operation>) -> Result<(), VerifyFailure> {
    let mut cs = ConstraintSystem::new();
    let config = MptCircuitConfig::configure(&mut cs);
    let rows = 1usize << k;
    let mut region = Region::new(cs.num_advice_columns(), cs.num_fixed_columns(), rows);
    let used: usize = ops.iter().map(|op| op.new_hash.len()).sum();
    assert!(used + 1 < rows);
    config.assign(&mut region, &ops, used + 1);
    cs.verify(&region)
}

#[test]
fn test_single_op() {
    let k = 4;
    assert_eq!(prove(k, vec![demo_circuit_1()]), Ok(()));
    assert_eq!(prove(k, vec![demo_circuit_2()]), Ok(()));
    assert_eq!(prove(k, vec![demo_circuit_3()]), Ok(()));
}

#[test]
fn test_mutiple_op() {
    let k = 4;
    let ops = vec![demo_circuit_1(), demo_circuit_2(), demo_circuit_3()];
    assert_eq!(prove(k, ops), Ok(()));
}

fn setup(rows: usize) -> (ConstraintSystem, MptCircuitConfig, Region) {
    let mut cs = ConstraintSystem::new();
    let config = MptCircuitConfig::configure(&mut cs);
    let region = Region::new(cs.num_advice_columns(), cs.num_fixed_columns(), rows);
    (cs, config, region)
}

fn assigned(ops: &Vec<Operation>) -> (ConstraintSystem, MptCircuitConfig, Region) {
    let (cs, config, mut region) = setup(16);
    let used: usize = ops.iter().map(|op| op.new_hash.len()).sum();
    config.assign(&mut region, ops, used + 1);
    (cs, config, region)
}

fn branch_then_leaf(old_root: u64, new_root: u64) -> Operation {
    Operation {
        siblings: vec![fp(1), fp(2)],
        old_hash: vec![fp(old_root), fp(3)],
        new_hash: vec![fp(new_root), fp(4)],
        path: vec![fp(1), fp(6)],
        old_hash_type: vec![HashType::Middle, HashType::Empty],
        new_hash_type: vec![HashType::Middle, HashType::Leaf],
    }
}

#[test]
fn the_columns_are_allocated_in_order() {
    let (cs, config, _) = setup(16);
    assert_eq!(cs.num_fixed_columns(), 5);
    assert_eq!(cs.num_advice_columns(), 10);
    assert_eq!(config.cols.s_row.0, 0);
    assert_eq!(config.cols.sibling.0, 0);
    assert_eq!(config.cols.path.0, 1);
    assert_eq!(config.cols.old_hash_type.0, 2);
    assert_eq!(config.cols.new_hash_type.0, 3);
    assert_eq!(config.cols.old_hash.0, 4);
    assert_eq!(config.cols.new_hash.0, 5);
    assert_eq!(config.chip.is_first.0, 6);
    assert_eq!(config.chip.key_aux.0, 7);
    assert_eq!(config.chip.root_aux.0, 8);
    assert_eq!(config.chip.depth_aux.0, 9);
    assert_eq!((config.chip.type_table.0 .0, config.chip.type_table.1 .0), (1, 2));
    assert_eq!((config.chip.trans_table.0 .0, config.chip.trans_table.1 .0), (3, 4));
}

#[test]
fn the_head_row_is_filled() {
    let (_, config, mut region) = setup(4);
    let chip = halo2_mpt_circuits::operations::MPTOpChip::construct(config.chip);
    assert_eq!(*chip.config(), config.chip);
    chip.fill_heading(&mut region, fp(99));
    assert_eq!(region.advice(config.chip.key_aux.0, 0), fp(0));
    assert_eq!(region.advice(config.chip.depth_aux.0, 0), fp(0));
    assert_eq!(region.advice(config.chip.root_aux.0, 0), fp(99));
    assert_eq!(region.advice(config.chip.is_first.0, 0), fp(1));
    assert_eq!(region.advice(config.chip.is_first.0, 1), fp(1));
    assert_eq!(region.advice(config.chip.is_first.0, 2), fp(0));
    assert_eq!(region.advice(config.chip.root_aux.0, 1), fp(0));
}

#[test]
fn the_tables_are_loaded_from_row_zero() {
    let (_, config, mut region) = setup(16);
    let chip = halo2_mpt_circuits::operations::MPTOpChip::construct(config.chip);
    chip.load(&mut region);
    let maps = chip.loaded();
    for row in 0..16 {
        let (cur, next) = if row < 9 {
            (maps.trans[row].0.to_field(), maps.trans[row].1.to_field())
        } else {
            (fp(0), fp(0))
        };
        assert_eq!(region.fixed(config.chip.trans_table.0 .0, row), cur);
        assert_eq!(region.fixed(config.chip.trans_table.1 .0, row), next);
        let (old, new) = if row < 5 {
            (maps.op[row].0.to_field(), maps.op[row].1.to_field())
        } else {
            (fp(0), fp(0))
        };
        assert_eq!(region.fixed(config.chip.type_table.0 .0, row), old);
        assert_eq!(region.fixed(config.chip.type_table.1 .0, row), new);
        assert_eq!(region.fixed(config.cols.s_row.0, row), fp(0));
    }
}

#[test]
fn fill_aux_follows_the_recurrences() {
    let (_, config, mut region) = setup(16);
    let chip = halo2_mpt_circuits::operations::MPTOpChip::construct(config.chip);
    let types = vec![
        HashType::Middle,
        HashType::Middle,
        HashType::Leaf,
        HashType::Middle,
        HashType::Leaf,
    ];
    let hashes = vec![fp(100), fp(101), fp(102), fp(103), fp(104)];
    let paths = vec![fp(1), fp(1), fp(3), fp(0), fp(7)];
    assert_eq!(chip.fill_aux(&mut region, 3, &types, &hashes, &paths), 5);
    let expected = [
        // row, is_first of the row below, root, depth, key
        (3, 0, 100, 1, 1),
        (4, 0, 100, 2, 3),
        (5, 1, 100, 4, 15),
        (6, 0, 103, 1, 0),
        (7, 1, 103, 2, 14),
    ];
    for (row, flag, root, depth, key) in expected {
        assert_eq!(region.advice(config.chip.is_first.0, row + 1), fp(flag));
        assert_eq!(region.advice(config.chip.root_aux.0, row), fp(root));
        assert_eq!(region.advice(config.chip.depth_aux.0, row), fp(depth));
        assert_eq!(region.advice(config.chip.key_aux.0, row), fp(key));
    }
    // nothing else is touched
    assert_eq!(region.advice(config.chip.is_first.0, 3), fp(0));
    assert_eq!(region.advice(config.chip.root_aux.0, 2), fp(0));
    assert_eq!(region.advice(config.chip.root_aux.0, 8), fp(0));
    assert_eq!(region.advice(config.cols.path.0, 3), fp(0));
}

#[test]
fn the_key_is_rebuilt_from_the_path_bits() {
    // bits 1, 0, 1 with depths 1, 2, 4
    let (_, config, mut region) = setup(16);
    let chip = halo2_mpt_circuits::operations::MPTOpChip::construct(config.chip);
    let types = vec![HashType::Middle, HashType::Middle, HashType::Leaf];
    let hashes = vec![fp(1), fp(2), fp(3)];
    let paths = vec![fp(1), fp(0), fp(1)];
    chip.fill_aux(&mut region, 1, &types, &hashes, &paths);
    assert_eq!(region.advice(config.chip.key_aux.0, 3), fp(5));
    assert_eq!(region.advice(config.chip.depth_aux.0, 3), fp(4));
}

#[test]
fn the_depth_doubles_through_the_modulus() {
    // node 253 lies at row 254 and has depth 2^253; 2^254 is above the modulus,
    // so the depth of the node below is 2^254 less the modulus
    let (_, config, mut region) = setup(300);
    let chip = halo2_mpt_circuits::operations::MPTOpChip::construct(config.chip);
    let n = 256;
    let types = vec![HashType::Middle; n];
    let hashes = vec![fp(0); n];
    let paths = vec![fp(0); n];
    chip.fill_aux(&mut region, 1, &types, &hashes, &paths);
    assert_eq!(
        region.advice(config.chip.depth_aux.0, 254).to_limbs(),
        [0, 0, 0, 1 << 61]
    );
    assert_eq!(
        region.advice(config.chip.depth_aux.0, 255).to_limbs(),
        [
            0xbc1e0a6c0fffffff,
            0xd7cc17b786468f6e,
            0x47afba497e7ea7a2,
            0x0f9bb18d1ece5fd6
        ]
    );
}

#[test]
fn a_batch_is_laid_out_row_by_row() {
    let ops = vec![demo_circuit_1(), demo_circuit_2()];
    let (_, config, region) = assigned(&ops);
    // row 0 is the head row, rows 1 to 3 hold the three nodes
    let selector: Vec<Fe> = (0..5).map(|r| region.fixed(config.cols.s_row.0, r)).collect();
    assert_eq!(selector, vec![fp(0), fp(1), fp(1), fp(1), fp(0)]);
    let is_first: Vec<Fe> = (0..6).map(|r| region.advice(config.chip.is_first.0, r)).collect();
    assert_eq!(is_first, vec![fp(1), fp(1), fp(1), fp(0), fp(1), fp(0)]);
    let roots: Vec<Fe> = (0..5).map(|r| region.advice(config.chip.root_aux.0, r)).collect();
    assert_eq!(roots, vec![fp(0), fp(11), fp(22), fp(22), fp(0)]);
    let depths: Vec<Fe> = (0..5).map(|r| region.advice(config.chip.depth_aux.0, r)).collect();
    assert_eq!(depths, vec![fp(0), fp(1), fp(1), fp(2), fp(0)]);
    let keys: Vec<Fe> = (0..5).map(|r| region.advice(config.chip.key_aux.0, r)).collect();
    assert_eq!(keys, vec![fp(0), fp(4), fp(1), fp(17), fp(0)]);
    let paths: Vec<Fe> = (0..5).map(|r| region.advice(config.cols.path.0, r)).collect();
    assert_eq!(paths, vec![fp(0), fp(4), fp(1), fp(8), fp(0)]);
    let new_types: Vec<Fe> = (0..5).map(|r| region.advice(config.cols.new_hash_type.0, r)).collect();
    assert_eq!(
        new_types,
        vec![
            fp(0),
            HashType::Leaf.to_field(),
            HashType::Middle.to_field(),
            HashType::Leaf.to_field(),
            fp(0)
        ]
    );
    let old_types: Vec<Fe> = (0..5).map(|r| region.advice(config.cols.old_hash_type.0, r)).collect();
    assert_eq!(
        old_types,
        vec![
            fp(0),
            HashType::Empty.to_field(),
            HashType::LeafExtFinal.to_field(),
            HashType::Empty.to_field(),
            fp(0)
        ]
    );
    assert_eq!(region.advice(config.cols.old_hash.0, 2), fp(11));
    assert_eq!(region.advice(config.cols.new_hash.0, 2), fp(22));
    assert_eq!(region.advice(config.cols.sibling.0, 2), fp(11));
    // and the tables are loaded
    assert_eq!(region.fixed(config.chip.trans_table.1 .0, 1), HashType::Empty.to_field());
}

#[test]
fn chained_operations_verify() {
    let ops = vec![
        branch_then_leaf(50, 60),
        branch_then_leaf(60, 70),
        branch_then_leaf(70, 80),
    ];
    let (cs, _, region) = assigned(&ops);
    assert_eq!(cs.verify(&region), Ok(()));
}

#[test]
fn a_broken_chain_fails_at_its_boundary() {
    // the second operation starts from 61, not from 60
    let ops = vec![
        branch_then_leaf(50, 60),
        branch_then_leaf(61, 70),
        branch_then_leaf(70, 80),
    ];
    let (cs, _, region) = assigned(&ops);
    assert_eq!(cs.verify(&region), Err(VerifyFailure::Gate { gate: 7, row: 3 }));
    // the third operation starts from 71, not from 70
    let ops = vec![
        branch_then_leaf(50, 60),
        branch_then_leaf(60, 70),
        branch_then_leaf(71, 80),
    ];
    let (cs, _, region) = assigned(&ops);
    assert_eq!(cs.verify(&region), Err(VerifyFailure::Gate { gate: 7, row: 5 }));
}

#[test]
fn mutating_a_root_breaks_only_its_boundary() {
    let ops = vec![
        branch_then_leaf(50, 60),
        branch_then_leaf(60, 70),
        branch_then_leaf(70, 80),
    ];
    let (cs, config, mut region) = assigned(&ops);
    config.cols.old_hash.assign(&mut region, 3, fp(61));
    assert_eq!(cs.verify(&region), Err(VerifyFailure::Gate { gate: 7, row: 3 }));
    // putting it back mends the circuit: no other constraint had failed
    config.cols.old_hash.assign(&mut region, 3, fp(60));
    assert_eq!(cs.verify(&region), Ok(()));
    // an old hash inside an operation is read by no gate
    config.cols.old_hash.assign(&mut region, 4, fp(12345));
    assert_eq!(cs.verify(&region), Ok(()));
}

#[test]
fn a_pair_outside_the_table_fails() {
    // Leaf -> Middle is no legal pair
    let mut op = branch_then_leaf(50, 60);
    op.old_hash_type[0] = HashType::Leaf;
    let (cs, _, region) = assigned(&vec![op]);
    assert_eq!(cs.verify(&region), Err(VerifyFailure::Lookup { lookup: 2, row: 1 }));
    // neither is Empty -> Middle
    let mut op = branch_then_leaf(50, 60);
    op.old_hash_type[0] = HashType::Empty;
    let (cs, _, region) = assigned(&vec![op]);
    assert_eq!(cs.verify(&region), Err(VerifyFailure::Lookup { lookup: 2, row: 1 }));
}

#[test]
fn an_illegal_step_of_the_old_roles_fails() {
    // LeafExt -> Empty skips the final extension node
    let op = Operation {
        siblings: vec![fp(0); 3],
        old_hash: vec![fp(50), fp(1), fp(2)],
        new_hash: vec![fp(60), fp(3), fp(4)],
        path: vec![fp(1), fp(0), fp(9)],
        old_hash_type: vec![HashType::Middle, HashType::LeafExt, HashType::Empty],
        new_hash_type: vec![HashType::Middle, HashType::Middle, HashType::Leaf],
    };
    let (cs, _, region) = assigned(&vec![op]);
    assert_eq!(cs.verify(&region), Err(VerifyFailure::Lookup { lookup: 0, row: 3 }));
}

#[test]
fn an_extension_runs_into_its_final_node() {
    // LeafExt -> LeafExtFinal in the old roles is accepted
    let op = Operation {
        siblings: vec![fp(0); 4],
        old_hash: vec![fp(50), fp(1), fp(2), fp(5)],
        new_hash: vec![fp(60), fp(3), fp(4), fp(6)],
        path: vec![fp(1), fp(0), fp(1), fp(9)],
        old_hash_type: vec![
            HashType::LeafExt,
            HashType::LeafExt,
            HashType::LeafExtFinal,
            HashType::Empty,
        ],
        new_hash_type: vec![
            HashType::Middle,
            HashType::Middle,
            HashType::Middle,
            HashType::Leaf,
        ],
    };
    let (cs, _, region) = assigned(&vec![op]);
    assert_eq!(cs.verify(&region), Ok(()));
}

#[test]
fn leaf_ext_to_middle_in_the_new_roles_fails() {
    let op = Operation {
        siblings: vec![fp(0); 3],
        old_hash: vec![fp(50), fp(1), fp(2)],
        new_hash: vec![fp(60), fp(3), fp(4)],
        path: vec![fp(1), fp(0), fp(9)],
        old_hash_type: vec![HashType::Middle, HashType::Middle, HashType::Empty],
        new_hash_type: vec![HashType::LeafExt, HashType::Middle, HashType::Leaf],
    };
    let (cs, config, mut region) = assigned(&vec![op]);
    assert!(matches!(cs.verify(&region), Err(VerifyFailure::Lookup { .. })));
    // with the pair of row 1 mended by hand, the step into row 2 is what fails
    config.cols.old_hash_type.assign(&mut region, 1, HashType::Leaf.to_field());
    config.cols.new_hash_type.assign(&mut region, 1, HashType::Leaf.to_field());
    config.chip.is_first.assign(&mut region, 2, fp(0));
    config.cols.new_hash_type.assign(&mut region, 1, HashType::LeafExt.to_field());
    assert!(cs.verify(&region).is_err());
}

#[test]
fn the_boundary_masks_the_step_between_operations() {
    // Leaf -> Middle and Empty -> LeafExtFinal across the boundary are no
    // legal steps, and are not looked up
    let first = demo_circuit_1();
    let second = demo_circuit_2();
    assert_eq!(first.new_hash_type[0], HashType::Leaf);
    assert_eq!(second.new_hash_type[0], HashType::Middle);
    assert_eq!(first.old_hash_type[0], HashType::Empty);
    assert_eq!(second.old_hash_type[0], HashType::LeafExtFinal);
    let (cs, config, mut region) = assigned(&vec![first, second]);
    assert_eq!(cs.verify(&region), Ok(()));
    // without the flag the step is looked up, and fails
    config.chip.is_first.assign(&mut region, 2, fp(0));
    assert!(cs.verify(&region).is_err());
}

#[test]
fn a_path_that_is_no_bit_fails_above_a_leaf() {
    let mut op = branch_then_leaf(50, 60);
    op.path[0] = fp(2);
    let (cs, _, region) = assigned(&vec![op]);
    assert_eq!(cs.verify(&region), Err(VerifyFailure::Gate { gate: 2, row: 1 }));
}

#[test]
fn an_operation_that_ends_above_a_leaf_fails() {
    let op = Operation {
        siblings: vec![fp(0)],
        old_hash: vec![fp(50)],
        new_hash: vec![fp(60)],
        path: vec![fp(1)],
        old_hash_type: vec![HashType::Middle],
        new_hash_type: vec![HashType::Middle],
    };
    let (cs, _, region) = assigned(&vec![op, branch_then_leaf(60, 70)]);
    // the second operation starts without the flag, so its key does not go on
    // from the key above
    assert_eq!(cs.verify(&region), Err(VerifyFailure::Gate { gate: 4, row: 2 }));
}

#[test]
fn a_tampered_witness_fails_its_gate() {
    let ops = vec![demo_circuit_3()];
    let (cs, config, region) = assigned(&ops);
    assert_eq!(cs.verify(&region), Ok(()));
    let tampered = |column: usize, row: usize, value: u64| {
        let (_, _, mut region) = assigned(&ops);
        region.assign_advice(column, row, fp(value));
        cs.verify(&region)
    };
    assert_eq!(
        tampered(config.chip.key_aux.0, 1, 7),
        Err(VerifyFailure::Gate { gate: 3, row: 1 })
    );
    assert_eq!(
        tampered(config.chip.key_aux.0, 2, 7),
        Err(VerifyFailure::Gate { gate: 4, row: 2 })
    );
    assert_eq!(
        tampered(config.chip.root_aux.0, 1, 7),
        Err(VerifyFailure::Gate { gate: 5, row: 1 })
    );
    assert_eq!(
        tampered(config.chip.root_aux.0, 3, 7),
        Err(VerifyFailure::Gate { gate: 6, row: 3 })
    );
    assert_eq!(
        tampered(config.chip.depth_aux.0, 1, 7),
        Err(VerifyFailure::Gate { gate: 3, row: 1 })
    );
    // the path of row 2 is zero, so the key does not feel the depth there
    assert_eq!(
        tampered(config.chip.depth_aux.0, 2, 7),
        Err(VerifyFailure::Gate { gate: 9, row: 2 })
    );
    assert_eq!(
        tampered(config.chip.depth_aux.0, 4, 7),
        Err(VerifyFailure::Gate { gate: 4, row: 4 })
    );
    assert_eq!(
        tampered(config.chip.is_first.0, 3, 2),
        Err(VerifyFailure::Gate { gate: 0, row: 2 })
    );
    assert_eq!(
        tampered(config.chip.is_first.0, 3, 1),
        Err(VerifyFailure::Gate { gate: 1, row: 2 })
    );
}

#[test]
fn a_batch_is_read_back_as_it_was_assigned() {
    let ops = vec![demo_circuit_1(), demo_circuit_2(), demo_circuit_3()];
    let (_, config, region) = assigned(&ops);
    let read = config.read_operations(&region).unwrap();
    assert_eq!(read.len(), 3);
    for (read, op) in read.iter().zip(ops.iter()) {
        assert_eq!(read.old_hash_type, op.old_hash_type);
        assert_eq!(read.new_hash_type, op.new_hash_type);
        assert_eq!(read.path, op.path);
        assert_eq!(read.old_hash, op.old_hash);
        assert_eq!(read.new_hash, op.new_hash);
        assert_eq!(read.siblings, op.siblings);
    }
}

#[test]
fn reading_back_a_blank_region_gives_no_operation() {
    let (_, config, region) = setup(16);
    assert_eq!(config.read_operations(&region).unwrap().len(), 0);
}

#[test]
fn reading_back_stops_at_a_cell_that_holds_no_role() {
    let ops = vec![demo_circuit_1(), demo_circuit_2()];
    let (_, config, mut region) = assigned(&ops);
    config.cols.new_hash_type.assign(&mut region, 2, fp(5));
    assert!(config.read_operations(&region).is_none());
    config.cols.new_hash_type.assign(&mut region, 2, Fe::from_u128(1 << 64));
    assert!(config.read_operations(&region).is_none());
    // a role cell behind the last active row is not read
    let (_, config, mut region) = assigned(&ops);
    config.cols.new_hash_type.assign(&mut region, 4, fp(5));
    assert_eq!(config.read_operations(&region).unwrap().len(), 2);
}
