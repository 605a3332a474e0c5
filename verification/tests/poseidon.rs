use halo2_mpt_circuits::column::AdviceColumn;
use halo2_mpt_circuits::constraint_builder::ConstraintBuilder;
use halo2_mpt_circuits::constraint_system::{ConstraintSystem, VerifyFailure};
use halo2_mpt_circuits::field::Fe;
use halo2_mpt_circuits::poseidon::PoseidonTable;
use halo2_mpt_circuits::query::BinaryQuery;
use halo2_mpt_circuits::region::Region;

fn fp(x: u64) -> Fe {
    Fe::from_u64(x)
}

const ZERO_HASH: u64 = 1000;

// The table, and three advice columns `l`, `r`, `h` and a switch `on` whose
// rows are looked up in it.
struct Circuit {
    cs: ConstraintSystem,
    table: PoseidonTable,
    on: AdviceColumn,
    l: AdviceColumn,
    r: AdviceColumn,
    h: AdviceColumn,
}

fn circuit() -> Circuit {
    let mut cs = ConstraintSystem::new();
    let mut cb = ConstraintBuilder::new();
    let table = PoseidonTable::dev_configure(&mut cs, &mut cb, fp(ZERO_HASH));
    let ([], [], [on, l, r, h]) = cb.build_columns::<0, 0, 4>(&mut cs);
    table.lookup(
        &mut cb,
        "hash",
        BinaryQuery(on.current()),
        l.current(),
        r.current(),
        h.current(),
    );
    cb.build(&mut cs);
    Circuit { cs, table, on, l, r, h }
}

fn traces() -> Vec<(Fe, Fe, Fe)> {
    vec![(fp(1), fp(2), fp(12)), (fp(3), fp(4), fp(34))]
}

fn loaded(c: &Circuit, size: usize) -> Region {
    let mut region = Region::new(c.cs.num_advice_columns(), c.cs.num_fixed_columns(), 8);
    c.table.dev_load(&mut region, &traces(), size);
    region
}

fn row(c: &Circuit, region: &Region, row: usize) -> [Fe; 6] {
    [
        region.fixed(c.table.q_enable.0, row),
        region.advice(c.table.left.0, row),
        region.advice(c.table.right.0, row),
        region.advice(c.table.hash.0, row),
        region.advice(c.table.control.0, row),
        region.advice(c.table.head_mark.0, row),
    ]
}

#[test]
fn the_columns_of_the_table_are_allocated_in_order() {
    let c = circuit();
    assert_eq!(c.table.left.0, 0);
    assert_eq!(c.table.right.0, 1);
    assert_eq!(c.table.hash.0, 2);
    assert_eq!(c.table.control.0, 3);
    assert_eq!(c.table.head_mark.0, 4);
    assert_eq!(c.table.q_enable.0, 0);
    assert_eq!(c.table.zero_hash, fp(ZERO_HASH));
    assert_eq!(c.on.0, 5);
    let same = PoseidonTable::from_columns(
        c.table.q_enable,
        [
            c.table.left,
            c.table.right,
            c.table.hash,
            c.table.control,
            c.table.head_mark,
        ],
        fp(ZERO_HASH),
    );
    assert_eq!(same.left, c.table.left);
    assert_eq!(same.right, c.table.right);
    assert_eq!(same.hash, c.table.hash);
    assert_eq!(same.control, c.table.control);
    assert_eq!(same.head_mark, c.table.head_mark);
    assert_eq!(same.q_enable, c.table.q_enable);
}

#[test]
fn the_table_is_loaded_row_by_row() {
    let c = circuit();
    let region = loaded(&c, 5);
    assert_eq!(row(&c, &region, 0), [fp(1), fp(1), fp(2), fp(12), fp(0), fp(1)]);
    assert_eq!(row(&c, &region, 1), [fp(1), fp(3), fp(4), fp(34), fp(0), fp(1)]);
    // the hash of the pair of zeros follows the hashes
    assert_eq!(row(&c, &region, 2), [fp(1), fp(0), fp(0), fp(ZERO_HASH), fp(0), fp(1)]);
    // the table is enabled up to its size
    assert_eq!(row(&c, &region, 3), [fp(1), fp(0), fp(0), fp(0), fp(0), fp(0)]);
    assert_eq!(row(&c, &region, 4), [fp(1), fp(0), fp(0), fp(0), fp(0), fp(0)]);
    // the row of zeros
    assert_eq!(row(&c, &region, 5), [fp(0), fp(0), fp(0), fp(0), fp(0), fp(0)]);
    assert_eq!(row(&c, &region, 6), [fp(0), fp(0), fp(0), fp(0), fp(0), fp(0)]);
}

#[test]
fn a_table_of_the_least_size_loses_the_hash_of_zeros() {
    // with room for the two hashes only, the row of zeros lies where the hash
    // of the pair of zeros lay
    let c = circuit();
    let region = loaded(&c, 2);
    assert_eq!(row(&c, &region, 1), [fp(1), fp(3), fp(4), fp(34), fp(0), fp(1)]);
    assert_eq!(row(&c, &region, 2), [fp(1), fp(0), fp(0), fp(0), fp(0), fp(0)]);
    assert_eq!(row(&c, &region, 3), [fp(0), fp(0), fp(0), fp(0), fp(0), fp(0)]);
}

#[test]
fn the_default_row_is_the_hash_of_zeros() {
    let c = circuit();
    let region = Region::new(1, 1, 1);
    let row: Vec<Fe> = c
        .table
        .default_lookup()
        .iter()
        .map(|q| q.eval(&region, 0))
        .collect();
    assert_eq!(row, vec![fp(1), fp(ZERO_HASH), fp(0), fp(0), fp(0), fp(1)]);
}

#[test]
fn a_hash_in_the_table_is_found() {
    let c = circuit();
    let mut region = loaded(&c, 5);
    c.on.assign(&mut region, 6, fp(1));
    c.l.assign(&mut region, 6, fp(3));
    c.r.assign(&mut region, 6, fp(4));
    c.h.assign(&mut region, 6, fp(34));
    assert_eq!(c.cs.verify(&region), Ok(()));
}

#[test]
fn a_hash_outside_the_table_is_not_found() {
    let c = circuit();
    let mut region = loaded(&c, 5);
    c.on.assign(&mut region, 6, fp(1));
    c.l.assign(&mut region, 6, fp(3));
    c.r.assign(&mut region, 6, fp(4));
    c.h.assign(&mut region, 6, fp(35));
    assert_eq!(
        c.cs.verify(&region),
        Err(VerifyFailure::Lookup { lookup: 0, row: 6 })
    );
    // left and right are not exchanged
    c.l.assign(&mut region, 6, fp(4));
    c.r.assign(&mut region, 6, fp(3));
    c.h.assign(&mut region, 6, fp(34));
    assert_eq!(
        c.cs.verify(&region),
        Err(VerifyFailure::Lookup { lookup: 0, row: 6 })
    );
}

#[test]
fn a_lookup_that_is_switched_off_reads_the_default_row() {
    let c = circuit();
    let mut region = loaded(&c, 5);
    // no hash at all, and the switch is off
    c.l.assign(&mut region, 6, fp(77));
    c.r.assign(&mut region, 6, fp(78));
    c.h.assign(&mut region, 6, fp(79));
    assert_eq!(c.cs.verify(&region), Ok(()));
    // without the hash of the pair of zeros in the table, every row fails
    let region = loaded(&c, 2);
    assert_eq!(
        c.cs.verify(&region),
        Err(VerifyFailure::Lookup { lookup: 0, row: 0 })
    );
}
