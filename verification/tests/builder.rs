use halo2_mpt_circuits::column::{AdviceColumn, FixedColumn, SelectorColumn};
use halo2_mpt_circuits::constraint_builder::ConstraintBuilder;
use halo2_mpt_circuits::constraint_system::{ConstraintSystem, VerifyFailure};
use halo2_mpt_circuits::field::Fe;
use halo2_mpt_circuits::query::Query;
use halo2_mpt_circuits::region::Region;

fn fp(x: u64) -> Fe {
    Fe::from_u64(x)
}

#[test]
fn columns_are_allocated_in_order() {
    let mut cs = ConstraintSystem::new();
    assert_eq!(cs.num_fixed_columns(), 0);
    assert_eq!(cs.num_advice_columns(), 0);
    assert_eq!(cs.fixed_column(), 0);
    assert_eq!(cs.advice_column(), 0);
    assert_eq!(cs.advice_column(), 1);
    let cb = ConstraintBuilder::new();
    let (selectors, fixed, advice) = cb.build_columns::<2, 1, 3>(&mut cs);
    assert_eq!(selectors, [SelectorColumn(1), SelectorColumn(2)]);
    assert_eq!(fixed, [FixedColumn(3)]);
    assert_eq!(advice, [AdviceColumn(2), AdviceColumn(3), AdviceColumn(4)]);
    assert_eq!(cs.num_fixed_columns(), 4);
    assert_eq!(cs.num_advice_columns(), 5);
    let (selectors, fixed, advice) = cb.build_columns::<0, 0, 0>(&mut cs);
    assert_eq!(selectors, []);
    assert_eq!(fixed, []);
    assert_eq!(advice, []);
    assert_eq!(cs.num_fixed_columns(), 4);
    assert_eq!(cs.num_advice_columns(), 5);
}

// One selector, one advice column `a` and a table column `t`: where the
// selector is on, `a` must be one more than the cell above, and everywhere `a`
// must be a cell of `t`.
fn counting_circuit() -> (ConstraintSystem, SelectorColumn, FixedColumn, AdviceColumn) {
    let mut cs = ConstraintSystem::new();
    let mut cb = ConstraintBuilder::new();
    let ([selector], [table], [a]) = cb.build_columns::<1, 1, 1>(&mut cs);
    cb.add_constraint(
        "a counts",
        selector.current(),
        a.delta().minus(Query::one()),
    );
    cb.add_lookup_2("a is in the table", vec![a.current()], vec![table.current()]);
    cb.build(&mut cs);
    (cs, selector, table, a)
}

fn counting_region(selector: SelectorColumn, table: FixedColumn, a: AdviceColumn) -> Region {
    let mut region = Region::new(1, 2, 6);
    for row in 0..6 {
        table.assign(&mut region, row, fp(row as u64));
    }
    for row in 1..4 {
        selector.enable(&mut region, row);
        a.assign(&mut region, row, fp(row as u64));
    }
    region
}

#[test]
fn a_satisfying_region_verifies() {
    let (cs, selector, table, a) = counting_circuit();
    let region = counting_region(selector, table, a);
    assert_eq!(cs.verify(&region), Ok(()));
}

#[test]
fn an_empty_circuit_is_satisfied_by_everything() {
    let cs = ConstraintSystem::new();
    assert_eq!(cs.verify(&Region::new(0, 0, 0)), Ok(()));
    let (_, selector, table, a) = counting_circuit();
    assert_eq!(cs.verify(&counting_region(selector, table, a)), Ok(()));
}

#[test]
fn a_failing_gate_is_reported_with_its_row() {
    let (cs, selector, table, a) = counting_circuit();
    let mut region = counting_region(selector, table, a);
    a.assign(&mut region, 2, fp(5));
    // row 2 reads 5 - 1, row 3 reads 3 - 5: the first is reported
    assert_eq!(cs.verify(&region), Err(VerifyFailure::Gate { gate: 0, row: 2 }));
}

#[test]
fn the_selector_switches_the_gate_off() {
    let (cs, selector, table, a) = counting_circuit();
    let mut region = counting_region(selector, table, a);
    // a jump at a row without the selector is no failure
    a.assign(&mut region, 5, fp(2));
    assert_eq!(cs.verify(&region), Ok(()));
}

#[test]
fn a_failing_lookup_is_reported_with_its_row() {
    let (cs, selector, table, a) = counting_circuit();
    let mut region = counting_region(selector, table, a);
    a.assign(&mut region, 5, fp(6));
    assert_eq!(cs.verify(&region), Err(VerifyFailure::Lookup { lookup: 0, row: 5 }));
}

#[test]
fn lookups_match_whole_rows_of_the_table() {
    let mut cs = ConstraintSystem::new();
    let mut cb = ConstraintBuilder::new();
    let ([], [t0, t1], [a0, a1]) = cb.build_columns::<0, 2, 2>(&mut cs);
    cb.add_lookup_2(
        "pair",
        vec![a0.current(), a1.current()],
        vec![t0.current(), t1.current()],
    );
    cb.build(&mut cs);
    let mut region = Region::new(2, 2, 3);
    // the table holds (0, 0), (1, 2), (3, 4)
    t0.assign(&mut region, 1, fp(1));
    t1.assign(&mut region, 1, fp(2));
    t0.assign(&mut region, 2, fp(3));
    t1.assign(&mut region, 2, fp(4));
    a0.assign(&mut region, 0, fp(3));
    a1.assign(&mut region, 0, fp(4));
    a0.assign(&mut region, 1, fp(1));
    a1.assign(&mut region, 1, fp(2));
    assert_eq!(cs.verify(&region), Ok(()));
    // (1, 4) takes its cells from two rows of the table
    a1.assign(&mut region, 1, fp(4));
    assert_eq!(cs.verify(&region), Err(VerifyFailure::Lookup { lookup: 0, row: 1 }));
}

#[test]
fn build_keeps_the_order_of_declaration() {
    let mut cs = ConstraintSystem::new();
    let mut cb = ConstraintBuilder::new();
    let ([s], [], [a]) = cb.build_columns::<1, 0, 1>(&mut cs);
    cb.add_constraint("first", s.current(), a.current().minus(Query::from_u64(1)));
    cb.add_constraint("second", s.current(), a.current().minus(Query::from_u64(2)));
    cb.build(&mut cs);
    let mut region = Region::new(1, 1, 2);
    s.enable(&mut region, 0);
    a.assign(&mut region, 0, fp(1));
    assert_eq!(cs.verify(&region), Err(VerifyFailure::Gate { gate: 1, row: 0 }));
    a.assign(&mut region, 0, fp(2));
    assert_eq!(cs.verify(&region), Err(VerifyFailure::Gate { gate: 0, row: 0 }));
}
