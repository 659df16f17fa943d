use num::BigInt;
use qwsearch::sample::hitting_ratio;
use qwsearch::sample::index_range;
use qwsearch::sample::qw_sample;
use qwsearch::sample::qw_sample_one;

#[test]
fn index_range_counts_from_zero() {
    assert_eq!(index_range(0), Vec::<usize>::new());
    assert_eq!(index_range(1), vec![0]);
    assert_eq!(index_range(5), vec![0, 1, 2, 3, 4]);
}

#[test]
fn hitting_ratio_scales_with_the_targets() {
    assert_eq!(hitting_ratio(10, 4, true), (100, 4));
    assert_eq!(hitting_ratio(3, 0, true), (9, 0));
}

#[test]
fn hitting_ratio_without_scaling_is_the_cell_count() {
    assert_eq!(hitting_ratio(10, 4, false), (100, 1));
    assert_eq!(hitting_ratio(1, 7, false), (1, 1));
}

#[test]
fn one_sample_at_rest_with_one_target() {
    for _ in 0..20 {
        let p = qw_sample_one(2, 1, 0);
        assert_eq!(p.num, BigInt::from(2));
        assert_eq!(p.den, BigInt::from(8));
    }
}

#[test]
fn one_sample_at_rest_counts_the_targets() {
    for _ in 0..20 {
        let p = qw_sample_one(3, 4, 0);
        assert_eq!(p.num, BigInt::from(8));
        assert_eq!(p.den, BigInt::from(18));
    }
}

#[test]
fn one_sample_with_a_single_target_is_fixed_by_symmetry() {
    for _ in 0..20 {
        let p = qw_sample_one(3, 1, 5);
        assert_eq!(p.num, BigInt::from(800));
        assert_eq!(p.den, BigInt::from(18432));
    }
}

#[test]
fn one_sample_with_every_cell_is_certain() {
    let p = qw_sample_one(3, 9, 4);
    assert_eq!(p.num, p.den);
}

#[test]
fn one_sample_with_more_targets_than_cells_takes_every_cell() {
    let p = qw_sample_one(2, 100, 3);
    assert_eq!(p.num, p.den);
    assert_eq!(p.den, BigInt::from(8 * 64));
}

#[test]
fn one_sample_without_targets_is_zero() {
    let p = qw_sample_one(3, 0, 2);
    assert_eq!(p.num, BigInt::from(0));
    assert_eq!(p.den, BigInt::from(18 * 16));
}

#[test]
fn samples_have_the_asked_length_and_lie_within_bounds() {
    let r = qw_sample(4, 3, 25, 6);
    assert_eq!(r.len(), 25);
    for p in r.iter() {
        assert!(p.num >= BigInt::from(0));
        assert!(p.num <= p.den);
        assert_eq!(p.den, BigInt::from(32 * 4096));
    }
}

#[test]
fn samples_of_a_single_target_agree() {
    let r = qw_sample(3, 1, 12, 5);
    assert_eq!(r.len(), 12);
    for p in r.iter() {
        assert_eq!(p.num, BigInt::from(800));
        assert_eq!(p.den, BigInt::from(18432));
    }
}

#[test]
fn no_iterations_give_no_samples() {
    let r = qw_sample(3, 2, 0, 4);
    assert!(r.is_empty());
}

#[test]
fn samples_differ_when_the_draw_matters() {
    let r = qw_sample(5, 3, 200, 3);
    assert_eq!(r.len(), 200);
    let first = &r[0];
    assert!(r.iter().any(|p| p.num != first.num));
}

#[test]
fn samples_without_targets_are_zero() {
    let r = qw_sample(3, 0, 6, 4);
    assert_eq!(r.len(), 6);
    for p in r.iter() {
        assert_eq!(p.num, BigInt::from(0));
        assert!(p.den >= BigInt::from(1));
    }
}

#[test]
fn samples_with_every_cell_are_certain() {
    let r = qw_sample(2, 4, 5, 3);
    assert_eq!(r.len(), 5);
    for p in r.iter() {
        assert_eq!(p.num, p.den);
    }
}
