use num::BigInt;
use num::ToPrimitive;
use qwsearch::state::Probability;
use qwsearch::walk::qw;
use qwsearch::walk::qw_signal;

fn ratio(p: &Probability) -> f64 {
    p.num.to_f64().unwrap() / p.den.to_f64().unwrap()
}

fn same(p: &Probability, q: &Probability) -> bool {
    p.num == q.num && p.den == q.den
}

#[test]
fn single_target_at_rest() {
    let p = qw(2, 0, &vec![0]);
    assert_eq!(p.num, BigInt::from(2));
    assert_eq!(p.den, BigInt::from(8));
    assert_eq!(ratio(&p), 0.25);
}

#[test]
fn empty_target_trajectory_is_zero() {
    for m in 0..7 {
        let p = qw_signal(2, m, &vec![]);
        assert_eq!(p.len(), m + 1);
        for t in 0..=m {
            assert_eq!(p[t].num, BigInt::from(0));
            assert_eq!(ratio(&p[t]), 0.0);
        }
    }
}

#[test]
fn no_target_gives_zero_at_every_step() {
    for n in 1..5 {
        for m in 0..5 {
            let p = qw(n, m, &vec![]);
            assert_eq!(p.num, BigInt::from(0));
            assert!(p.den >= BigInt::from(1));
        }
    }
}

#[test]
fn qw_after_two_steps() {
    let p = qw(3, 2, &vec![4]);
    assert_eq!(p.num, BigInt::from(128));
    assert_eq!(p.den, BigInt::from(288));
}

#[test]
fn qw_after_seven_steps() {
    let p = qw(5, 7, &vec![12]);
    assert_eq!(p.num, BigInt::from(199712));
    assert_eq!(p.den, BigInt::from(819200));
    assert_eq!(ratio(&p), 0.2437890625);
}

#[test]
fn qw_with_two_targets() {
    let p = qw(4, 3, &vec![1, 6]);
    assert_eq!(p.num, BigInt::from(192));
    assert_eq!(p.den, BigInt::from(2048));
    assert_eq!(ratio(&p), 0.09375);
}

#[test]
fn qw_counts_a_repeated_target_twice() {
    let p = qw(4, 3, &vec![1, 1]);
    assert_eq!(p.num, BigInt::from(1024));
    assert_eq!(p.den, BigInt::from(2048));
}

#[test]
fn repeated_targets_can_exceed_one() {
    let p = qw(1, 0, &vec![0, 0]);
    assert_eq!(p.num, BigInt::from(4));
    assert_eq!(p.den, BigInt::from(2));
}

#[test]
fn the_only_cell_is_always_found() {
    for m in 0..6 {
        let p = qw(1, m, &vec![0]);
        assert_eq!(p.num, p.den);
    }
}

#[test]
fn all_cells_are_always_found() {
    let all: Vec<usize> = (0..9).collect();
    for m in 0..5 {
        let p = qw(3, m, &all);
        assert_eq!(p.num, p.den);
    }
}

#[test]
fn the_denominator_is_the_scale_of_the_walk() {
    for m in 0..6 {
        let p = qw(3, m, &vec![2]);
        assert_eq!(p.den, BigInt::from(18) * BigInt::from(4).pow(m as u32));
    }
}

#[test]
fn qw_takes_many_steps_without_overflow() {
    let p = qw(2, 200, &vec![1]);
    assert_eq!(p.den, BigInt::from(8) * BigInt::from(4).pow(200));
    assert!(p.num >= BigInt::from(0));
    assert!(p.num <= p.den);
}

#[test]
fn signal_has_the_known_values() {
    let p = qw_signal(3, 4, &vec![1, 5]);
    let expected = [(4, 18), (16, 72), (112, 288), (208, 1152), (656, 4608)];
    assert_eq!(p.len(), 5);
    for t in 0..5 {
        assert_eq!(p[t].num, BigInt::from(expected[t].0));
        assert_eq!(p[t].den, BigInt::from(expected[t].1));
    }
}

#[test]
fn signal_without_steps_holds_the_start() {
    let p = qw_signal(2, 0, &vec![0]);
    assert_eq!(p.len(), 1);
    assert_eq!(p[0].num, BigInt::from(2));
    assert_eq!(p[0].den, BigInt::from(8));
}

#[test]
fn signal_agrees_with_qw_at_every_step() {
    let search = vec![3, 10, 11];
    let p = qw_signal(4, 9, &search);
    assert_eq!(p.len(), 10);
    for t in 0..10 {
        assert!(same(&p[t], &qw(4, t, &search)));
    }
}

#[test]
fn a_single_target_may_lie_anywhere() {
    let first = qw(3, 5, &vec![0]);
    assert_eq!(first.num, BigInt::from(800));
    assert_eq!(first.den, BigInt::from(18432));
    for k in 0..9 {
        assert!(same(&qw(3, 5, &vec![k]), &first));
    }
    assert!(same(&qw(5, 7, &vec![0]), &qw(5, 7, &vec![24])));
}

#[test]
fn shifted_targets_give_the_same_probability() {
    let p = qw(4, 3, &vec![1, 6]);
    let q = qw(4, 3, &vec![7, 8]);
    assert!(same(&p, &q));
}

#[test]
fn probability_stays_within_bounds_for_distinct_targets() {
    let search = vec![0, 7, 12, 13, 24];
    for m in 0..12 {
        let p = qw(5, m, &search);
        assert!(p.num >= BigInt::from(0));
        assert!(p.num <= p.den);
    }
}
