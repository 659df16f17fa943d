use num::complex::Complex;
use num::BigInt;
use qwsearch::coin::coin_x;
use qwsearch::coin::coin_y;
use qwsearch::state::coin;
use qwsearch::state::measure;
use qwsearch::state::oracle;
use qwsearch::state::scatter_x;
use qwsearch::state::scatter_y;
use qwsearch::state::targets_in_grid;
use qwsearch::state::tick;
use qwsearch::state::State;

fn gauss(re: i64, im: i64) -> Complex<BigInt> {
    Complex::new(BigInt::from(re), BigInt::from(im))
}

fn total_weight(psi: &State) -> BigInt {
    let n = psi.side();
    let mut total = BigInt::from(0);
    for i in 0..n {
        for j in 0..n {
            for k in 0..2 {
                total += psi.amplitude(i, j, k).norm_sqr();
            }
        }
    }
    total
}

fn same_amplitudes(a: &State, b: &State) -> bool {
    let n = a.side();
    if b.side() != n || a.scale() != b.scale() {
        return false;
    }
    for i in 0..n {
        for j in 0..n {
            for k in 0..2 {
                if a.amplitude(i, j, k) != b.amplitude(i, j, k) {
                    return false;
                }
            }
        }
    }
    true
}

#[test]
fn new_state_is_uniform() {
    let psi = State::new(3);
    assert_eq!(psi.side(), 3);
    assert_eq!(psi.scale(), BigInt::from(18));
    for i in 0..3 {
        for j in 0..3 {
            for k in 0..2 {
                assert_eq!(psi.amplitude(i, j, k), gauss(1, 0));
            }
        }
    }
    assert_eq!(total_weight(&psi), psi.scale());
}

#[test]
fn fits_accepts_small_grids_and_refuses_huge_ones() {
    assert!(State::fits(1));
    assert!(State::fits(1000));
    assert!(!State::fits(usize::MAX));
    assert!(!State::fits(0x1_0000_0000));
}

#[test]
fn targets_in_grid_checks_every_index() {
    assert!(targets_in_grid(&vec![], 2));
    assert!(targets_in_grid(&vec![0, 3, 3], 2));
    assert!(!targets_in_grid(&vec![0, 4], 2));
    assert!(!targets_in_grid(&vec![4, 0], 2));
    assert!(targets_in_grid(&vec![8], 3));
    assert!(!targets_in_grid(&vec![9], 3));
}

#[test]
fn coin_x_has_its_four_entries() {
    let c = coin_x();
    assert_eq!(c.entry(0, 0), gauss(1, 0));
    assert_eq!(c.entry(0, 1), gauss(0, 1));
    assert_eq!(c.entry(1, 0), gauss(0, 1));
    assert_eq!(c.entry(1, 1), gauss(1, 0));
}

#[test]
fn coin_y_has_its_four_entries() {
    let c = coin_y();
    assert_eq!(c.entry(0, 0), gauss(1, 0));
    assert_eq!(c.entry(0, 1), gauss(0, -1));
    assert_eq!(c.entry(1, 0), gauss(0, -1));
    assert_eq!(c.entry(1, 1), gauss(1, 0));
}

#[test]
fn coin_x_on_the_uniform_state() {
    let mut psi = State::new(2);
    coin(&mut psi, &coin_x());
    assert_eq!(psi.scale(), BigInt::from(16));
    for i in 0..2 {
        for j in 0..2 {
            assert_eq!(psi.amplitude(i, j, 0), gauss(1, 1));
            assert_eq!(psi.amplitude(i, j, 1), gauss(1, 1));
        }
    }
}

#[test]
fn coin_x_twice_multiplies_complex_numbers() {
    let mut psi = State::new(2);
    coin(&mut psi, &coin_x());
    coin(&mut psi, &coin_x());
    assert_eq!(psi.scale(), BigInt::from(32));
    for i in 0..2 {
        for j in 0..2 {
            assert_eq!(psi.amplitude(i, j, 0), gauss(0, 2));
            assert_eq!(psi.amplitude(i, j, 1), gauss(0, 2));
        }
    }
    assert_eq!(total_weight(&psi), psi.scale());
}

#[test]
fn coin_y_on_the_uniform_state() {
    let mut psi = State::new(2);
    coin(&mut psi, &coin_y());
    assert_eq!(psi.scale(), BigInt::from(16));
    for i in 0..2 {
        for j in 0..2 {
            assert_eq!(psi.amplitude(i, j, 0), gauss(1, -1));
            assert_eq!(psi.amplitude(i, j, 1), gauss(1, -1));
        }
    }
}

#[test]
fn coin_x_then_coin_y_is_twice_the_identity() {
    let mut psi = State::new(3);
    oracle(&mut psi, &vec![4]);
    scatter_x(&mut psi);
    let mut phi = State::new(3);
    oracle(&mut phi, &vec![4]);
    scatter_x(&mut phi);
    coin(&mut phi, &coin_x());
    coin(&mut phi, &coin_y());
    let two = BigInt::from(2);
    assert_eq!(phi.scale(), psi.scale() * BigInt::from(4));
    for i in 0..3 {
        for j in 0..3 {
            for k in 0..2 {
                let a = psi.amplitude(i, j, k);
                assert_eq!(phi.amplitude(i, j, k), Complex::new(&a.re * &two, &a.im * &two));
            }
        }
    }
}

#[test]
fn oracle_negates_the_marked_cell_only() {
    let mut psi = State::new(2);
    oracle(&mut psi, &vec![3]);
    assert_eq!(psi.scale(), BigInt::from(8));
    for i in 0..2 {
        for j in 0..2 {
            for k in 0..2 {
                let expected = if i == 1 && j == 1 { gauss(-1, 0) } else { gauss(1, 0) };
                assert_eq!(psi.amplitude(i, j, k), expected);
            }
        }
    }
}

#[test]
fn oracle_swaps_the_two_components() {
    let mut psi = State::new(3);
    tick(&mut psi, &vec![4]);
    tick(&mut psi, &vec![4]);
    assert_eq!(psi.amplitude(0, 0, 0), gauss(0, -4));
    assert_eq!(psi.amplitude(0, 0, 1), gauss(2, -2));
    oracle(&mut psi, &vec![0]);
    assert_eq!(psi.amplitude(0, 0, 0), gauss(-2, 2));
    assert_eq!(psi.amplitude(0, 0, 1), gauss(0, 4));
    assert_eq!(psi.amplitude(1, 1, 0), gauss(8, 0));
    assert_eq!(psi.amplitude(1, 1, 1), gauss(8, 0));
}

#[test]
fn oracle_treats_a_repeated_target_as_one() {
    let mut once = State::new(3);
    tick(&mut once, &vec![4]);
    let mut twice = State::new(3);
    tick(&mut twice, &vec![4]);
    oracle(&mut once, &vec![0, 7]);
    oracle(&mut twice, &vec![0, 7, 0, 0, 7]);
    assert!(same_amplitudes(&once, &twice));
}

#[test]
fn oracle_without_targets_changes_nothing() {
    let mut psi = State::new(3);
    tick(&mut psi, &vec![4]);
    let mut phi = State::new(3);
    tick(&mut phi, &vec![4]);
    oracle(&mut phi, &vec![]);
    assert!(same_amplitudes(&psi, &phi));
}

#[test]
fn scatter_x_shifts_rows_across_the_boundary() {
    let mut psi = State::new(3);
    oracle(&mut psi, &vec![0]);
    scatter_x(&mut psi);
    assert_eq!(psi.scale(), BigInt::from(18));
    for i in 0..3 {
        for j in 0..3 {
            for k in 0..2 {
                let moved = (i == 2 && j == 0 && k == 0) || (i == 1 && j == 0 && k == 1);
                let expected = if moved { gauss(-1, 0) } else { gauss(1, 0) };
                assert_eq!(psi.amplitude(i, j, k), expected);
            }
        }
    }
}

#[test]
fn scatter_y_shifts_columns_across_the_boundary() {
    let mut psi = State::new(3);
    oracle(&mut psi, &vec![0]);
    scatter_y(&mut psi);
    assert_eq!(psi.scale(), BigInt::from(18));
    for i in 0..3 {
        for j in 0..3 {
            for k in 0..2 {
                let moved = (i == 0 && j == 2 && k == 0) || (i == 0 && j == 1 && k == 1);
                let expected = if moved { gauss(-1, 0) } else { gauss(1, 0) };
                assert_eq!(psi.amplitude(i, j, k), expected);
            }
        }
    }
}

#[test]
fn scatter_n_times_is_the_identity() {
    let mut psi = State::new(3);
    tick(&mut psi, &vec![5]);
    let mut phi = State::new(3);
    tick(&mut phi, &vec![5]);
    for _ in 0..3 {
        scatter_x(&mut phi);
    }
    assert!(same_amplitudes(&psi, &phi));
    for _ in 0..3 {
        scatter_y(&mut phi);
    }
    assert!(same_amplitudes(&psi, &phi));
}

#[test]
fn scatter_on_a_single_cell_changes_nothing() {
    let mut psi = State::new(1);
    coin(&mut psi, &coin_x());
    scatter_x(&mut psi);
    scatter_y(&mut psi);
    assert_eq!(psi.amplitude(0, 0, 0), gauss(1, 1));
    assert_eq!(psi.amplitude(0, 0, 1), gauss(1, 1));
}

#[test]
fn measure_adds_both_components_of_each_target() {
    let psi = State::new(2);
    let p = measure(&psi, &vec![0]);
    assert_eq!(p.num, BigInt::from(2));
    assert_eq!(p.den, BigInt::from(8));
    let q = measure(&psi, &vec![0, 1, 2, 3]);
    assert_eq!(q.num, BigInt::from(8));
    assert_eq!(q.den, BigInt::from(8));
}

#[test]
fn measure_counts_a_repeated_target_twice() {
    let psi = State::new(2);
    let p = measure(&psi, &vec![0, 0]);
    assert_eq!(p.num, BigInt::from(4));
    assert_eq!(p.den, BigInt::from(8));
}

#[test]
fn measure_without_targets_is_zero() {
    let psi = State::new(2);
    let p = measure(&psi, &vec![]);
    assert_eq!(p.num, BigInt::from(0));
    assert_eq!(p.den, BigInt::from(8));
}

#[test]
fn measure_reads_squared_moduli() {
    let mut psi = State::new(3);
    tick(&mut psi, &vec![4]);
    tick(&mut psi, &vec![4]);
    let p = measure(&psi, &vec![0, 4]);
    assert_eq!(p.num, BigInt::from(16 + 8 + 64 + 64));
    assert_eq!(p.den, BigInt::from(288));
}

#[test]
fn tick_on_the_small_torus() {
    let mut psi = State::new(2);
    tick(&mut psi, &vec![0]);
    assert_eq!(psi.scale(), BigInt::from(32));
    for i in 0..2 {
        for j in 0..2 {
            for k in 0..2 {
                let expected = if i == 1 && j == 1 { gauss(-2, 0) } else { gauss(2, 0) };
                assert_eq!(psi.amplitude(i, j, k), expected);
            }
        }
    }
}

#[test]
fn tick_twice_gives_the_known_state() {
    let mut psi = State::new(3);
    tick(&mut psi, &vec![4]);
    tick(&mut psi, &vec![4]);
    assert_eq!(psi.scale(), BigInt::from(288));
    let expected = [
        [[(0, -4), (2, -2)], [(2, 2), (2, -2)], [(2, 2), (0, 4)]],
        [[(4, 0), (0, 0)], [(8, 0), (8, 0)], [(0, 0), (4, 0)]],
        [[(0, 4), (2, 2)], [(2, -2), (2, 2)], [(2, -2), (0, -4)]],
    ];
    for i in 0..3 {
        for j in 0..3 {
            for k in 0..2 {
                let (re, im) = expected[i][j][k];
                assert_eq!(psi.amplitude(i, j, k), gauss(re, im));
            }
        }
    }
}

#[test]
fn tick_is_the_five_operators_in_order() {
    let search = vec![1, 6];
    let mut psi = State::new(4);
    let mut phi = State::new(4);
    for _ in 0..3 {
        tick(&mut psi, &search);
        oracle(&mut phi, &search);
        coin(&mut phi, &coin_x());
        scatter_x(&mut phi);
        coin(&mut phi, &coin_y());
        scatter_y(&mut phi);
        assert!(same_amplitudes(&psi, &phi));
    }
}

#[test]
fn tick_keeps_the_total_probability_at_one() {
    let search = vec![1, 6, 6, 15];
    let mut psi = State::new(4);
    assert_eq!(total_weight(&psi), psi.scale());
    for _ in 0..6 {
        tick(&mut psi, &search);
        assert_eq!(total_weight(&psi), psi.scale());
    }
    assert_eq!(psi.scale(), BigInt::from(32 * 4096));
}

#[test]
fn every_operator_keeps_the_total_probability_at_one() {
    let mut psi = State::new(3);
    tick(&mut psi, &vec![2]);
    oracle(&mut psi, &vec![0, 5]);
    assert_eq!(total_weight(&psi), psi.scale());
    coin(&mut psi, &coin_x());
    assert_eq!(total_weight(&psi), psi.scale());
    scatter_x(&mut psi);
    assert_eq!(total_weight(&psi), psi.scale());
    coin(&mut psi, &coin_y());
    assert_eq!(total_weight(&psi), psi.scale());
    scatter_y(&mut psi);
    assert_eq!(total_weight(&psi), psi.scale());
}

fn numbered(n: usize) -> Vec<(i64, i64)> {
    let mut values = Vec::new();
    for i in 0..n {
        for j in 0..n {
            for k in 0..2 {
                values.push(((100 * i + 10 * j + k) as i64 + 1, -((7 * i + 3 * j + k) as i64)));
            }
        }
    }
    values
}

#[test]
fn from_amplitudes_places_each_value() {
    let values = numbered(3);
    let psi = State::from_amplitudes(3, &values, 5);
    assert_eq!(psi.side(), 3);
    assert_eq!(psi.scale(), BigInt::from(5));
    for i in 0..3 {
        for j in 0..3 {
            for k in 0..2 {
                let (re, im) = values[2 * (i * 3 + j) + k];
                assert_eq!(psi.amplitude(i, j, k), gauss(re, im));
            }
        }
    }
    assert_eq!(psi.amplitude(1, 2, 1), gauss(122, -14));
}

#[test]
fn from_amplitudes_of_ones_is_the_uniform_state() {
    let psi = State::from_amplitudes(2, &vec![(1, 0); 8], 8);
    assert!(same_amplitudes(&psi, &State::new(2)));
}

#[test]
fn coin_x_on_given_amplitudes() {
    let mut psi = State::from_amplitudes(1, &vec![(2, 3), (5, -1)], 39);
    coin(&mut psi, &coin_x());
    assert_eq!(psi.amplitude(0, 0, 0), gauss(3, 8));
    assert_eq!(psi.amplitude(0, 0, 1), gauss(2, 1));
    assert_eq!(psi.scale(), BigInt::from(78));
    assert_eq!(total_weight(&psi), psi.scale());
}

#[test]
fn coin_y_on_given_amplitudes() {
    let mut psi = State::from_amplitudes(1, &vec![(2, 3), (5, -1)], 39);
    coin(&mut psi, &coin_y());
    assert_eq!(psi.amplitude(0, 0, 0), gauss(1, -2));
    assert_eq!(psi.amplitude(0, 0, 1), gauss(8, -3));
    assert_eq!(psi.scale(), BigInt::from(78));
    assert_eq!(total_weight(&psi), psi.scale());
}

#[test]
fn oracle_on_given_amplitudes() {
    let mut psi = State::from_amplitudes(2, &numbered(2), 1);
    oracle(&mut psi, &vec![2]);
    let before = State::from_amplitudes(2, &numbered(2), 1);
    for i in 0..2 {
        for j in 0..2 {
            for k in 0..2 {
                let expected = if i == 1 && j == 0 {
                    -before.amplitude(i, j, 1 - k)
                } else {
                    before.amplitude(i, j, k)
                };
                assert_eq!(psi.amplitude(i, j, k), expected);
            }
        }
    }
    assert_eq!(psi.amplitude(1, 0, 0), gauss(-102, 8));
    assert_eq!(psi.amplitude(1, 0, 1), gauss(-101, 7));
}

#[test]
fn scatter_x_on_given_amplitudes() {
    let before = State::from_amplitudes(3, &numbered(3), 1);
    let mut psi = State::from_amplitudes(3, &numbered(3), 1);
    scatter_x(&mut psi);
    for i in 0..3 {
        for j in 0..3 {
            assert_eq!(psi.amplitude(i, j, 0), before.amplitude((i + 1) % 3, j, 0));
            assert_eq!(psi.amplitude(i, j, 1), before.amplitude((i + 2) % 3, j, 1));
        }
    }
    assert_eq!(psi.amplitude(2, 1, 0), gauss(11, -3));
    assert_eq!(psi.amplitude(0, 1, 1), gauss(212, -18));
    assert_eq!(psi.scale(), BigInt::from(1));
}

#[test]
fn scatter_y_on_given_amplitudes() {
    let before = State::from_amplitudes(3, &numbered(3), 1);
    let mut psi = State::from_amplitudes(3, &numbered(3), 1);
    scatter_y(&mut psi);
    for i in 0..3 {
        for j in 0..3 {
            assert_eq!(psi.amplitude(i, j, 0), before.amplitude(i, (j + 1) % 3, 0));
            assert_eq!(psi.amplitude(i, j, 1), before.amplitude(i, (j + 2) % 3, 1));
        }
    }
    assert_eq!(psi.amplitude(1, 2, 0), gauss(101, -7));
    assert_eq!(psi.amplitude(1, 0, 1), gauss(122, -14));
    assert_eq!(psi.scale(), BigInt::from(1));
}

#[test]
fn measure_on_given_amplitudes() {
    let psi = State::from_amplitudes(1, &vec![(2, 3), (5, -1)], 39);
    let p = measure(&psi, &vec![0]);
    assert_eq!(p.num, BigInt::from(39));
    assert_eq!(p.den, BigInt::from(39));
    let psi = State::from_amplitudes(2, &numbered(2), 1000);
    let q = measure(&psi, &vec![3]);
    assert_eq!(q.num, BigInt::from(111 * 111 + 10 * 10 + 112 * 112 + 11 * 11));
    assert_eq!(q.den, BigInt::from(1000));
}

#[test]
fn tick_on_given_amplitudes_is_the_five_operators() {
    let search = vec![0, 5, 7];
    let mut psi = State::from_amplitudes(3, &numbered(3), 3);
    let mut phi = State::from_amplitudes(3, &numbered(3), 3);
    tick(&mut psi, &search);
    oracle(&mut phi, &search);
    coin(&mut phi, &coin_x());
    scatter_x(&mut phi);
    coin(&mut phi, &coin_y());
    scatter_y(&mut phi);
    assert!(same_amplitudes(&psi, &phi));
    assert_eq!(psi.scale(), BigInt::from(12));
}
