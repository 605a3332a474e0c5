use halo2_mpt_circuits::column::{AdviceColumn, FixedColumn, SelectorColumn};
use halo2_mpt_circuits::field::Fe;
use halo2_mpt_circuits::query::{BinaryQuery, Query};
use halo2_mpt_circuits::region::Region;

fn fp(x: u64) -> Fe {
    Fe::from_u64(x)
}

fn region() -> Region {
    // advice column 0 holds 10, 20, 30, 40; fixed column 0 holds 0, 1, 0, 1
    let mut region = Region::new(2, 1, 4);
    for row in 0..4 {
        AdviceColumn(0).assign(&mut region, row, fp(10 * (row as u64 + 1)));
        FixedColumn(0).assign(&mut region, row, fp(row as u64 % 2));
    }
    region
}

#[test]
fn a_new_region_is_blank() {
    let region = Region::new(3, 2, 5);
    assert_eq!(region.rows(), 5);
    assert_eq!(region.num_advice(), 3);
    assert_eq!(region.num_fixed(), 2);
    for row in 0..5 {
        for column in 0..3 {
            assert_eq!(region.advice(column, row), Fe::zero());
        }
        for column in 0..2 {
            assert_eq!(region.fixed(column, row), Fe::zero());
        }
    }
}

#[test]
fn reads_outside_the_region_give_zero() {
    let region = region();
    assert_eq!(region.advice(0, 4), Fe::zero());
    assert_eq!(region.advice(2, 0), Fe::zero());
    assert_eq!(region.fixed(1, 0), Fe::zero());
    assert_eq!(region.fixed(0, 9), Fe::zero());
}

#[test]
fn assignment_writes_one_cell() {
    let mut region = Region::new(2, 2, 3);
    region.assign_advice(1, 2, fp(5));
    region.assign_fixed(0, 1, fp(6));
    for row in 0..3 {
        for column in 0..2 {
            let advice = if (column, row) == (1, 2) { fp(5) } else { Fe::zero() };
            let fixed = if (column, row) == (0, 1) { fp(6) } else { Fe::zero() };
            assert_eq!(region.advice(column, row), advice);
            assert_eq!(region.fixed(column, row), fixed);
        }
    }
}

#[test]
fn a_selector_is_enabled_with_one() {
    let mut region = Region::new(1, 2, 3);
    SelectorColumn(1).enable(&mut region, 2);
    assert_eq!(region.fixed(1, 2), Fe::one());
    assert_eq!(region.fixed(1, 1), Fe::zero());
    assert_eq!(region.fixed(0, 2), Fe::zero());
}

#[test]
fn rotations_read_neighbouring_rows() {
    let region = region();
    let column = AdviceColumn(0);
    assert_eq!(column.current().eval(&region, 1), fp(20));
    assert_eq!(column.previous().eval(&region, 1), fp(10));
    assert_eq!(column.next().eval(&region, 1), fp(30));
    assert_eq!(column.rotation(2).eval(&region, 1), fp(40));
    assert_eq!(column.rotation(-1).eval(&region, 3), fp(30));
    assert_eq!(FixedColumn(0).current().eval(&region, 3), fp(1));
    assert_eq!(FixedColumn(0).previous().eval(&region, 3), fp(0));
    assert_eq!(FixedColumn(0).rotation(-2).eval(&region, 3), fp(1));
    assert_eq!(SelectorColumn(0).current().0.eval(&region, 1), fp(1));
    assert_eq!(SelectorColumn(0).rotation(1).0.eval(&region, 1), fp(0));
}

#[test]
fn rotations_past_the_edges_read_zero() {
    let region = region();
    let column = AdviceColumn(0);
    assert_eq!(column.previous().eval(&region, 0), Fe::zero());
    assert_eq!(column.next().eval(&region, 3), Fe::zero());
    assert_eq!(column.rotation(i32::MIN).eval(&region, 2), Fe::zero());
    assert_eq!(column.rotation(i32::MAX).eval(&region, 2), Fe::zero());
    assert_eq!(column.current().eval(&region, usize::MAX), Fe::zero());
}

#[test]
fn delta_is_current_less_previous() {
    let region = region();
    assert_eq!(AdviceColumn(0).delta().eval(&region, 2), fp(10));
    assert_eq!(AdviceColumn(0).delta().eval(&region, 0), fp(10));
}

#[test]
fn formulas_are_evaluated_as_written() {
    let region = region();
    let a = AdviceColumn(0);
    // (a.cur + a.prev) * 3 - a.next at row 2 is (30 + 20) * 3 - 40
    let q = a
        .current()
        .plus(a.previous())
        .times(Query::from_u64(3))
        .minus(a.next());
    assert_eq!(q.eval(&region, 2), fp(110));
    assert_eq!(q.clone().eval(&region, 2), fp(110));
    assert_eq!(q.duplicate().eval(&region, 1), fp(60));
}

#[test]
fn conditions_combine_as_booleans() {
    let region = region();
    for a in [0u64, 1] {
        for b in [0u64, 1] {
            let qa = || BinaryQuery(Query::from_u64(a));
            let qb = || BinaryQuery(Query::from_u64(b));
            assert_eq!(qa().not().0.eval(&region, 0), fp(1 - a));
            assert_eq!(qa().and(qb()).0.eval(&region, 0), fp(a & b));
            assert_eq!(qa().or(qb()).0.eval(&region, 0), fp(a | b));
            assert_eq!(
                qa().select(Query::from_u64(8), Query::from_u64(9)).eval(&region, 0),
                fp(if a == 1 { 8 } else { 9 })
            );
            assert_eq!(
                qa().condition(Query::from_u64(8)).eval(&region, 0),
                fp(if a == 1 { 8 } else { 0 })
            );
        }
    }
    assert_eq!(BinaryQuery::zero().0.eval(&region, 0), Fe::zero());
    assert_eq!(BinaryQuery::one().0.eval(&region, 0), Fe::one());
    assert_eq!(BinaryQuery::one().clone().0.eval(&region, 0), Fe::one());
}
