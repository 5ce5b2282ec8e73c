use cactpot::board::{grid_index, Cactpot, CactpotError};
use cactpot::payout::payout;
use cactpot::solver::{row_cells, Recommendation};

#[test]
fn payout_table_is_exact() {
    let table: [(u8, u64); 19] = [
        (6, 10000),
        (7, 36),
        (8, 720),
        (9, 360),
        (10, 80),
        (11, 252),
        (12, 108),
        (13, 72),
        (14, 54),
        (15, 180),
        (16, 72),
        (17, 180),
        (18, 119),
        (19, 36),
        (20, 306),
        (21, 1080),
        (22, 144),
        (23, 1800),
        (24, 3600),
    ];
    for (sum, credits) in table {
        assert_eq!(payout(sum), credits);
    }
    for sum in 0..6u8 {
        assert_eq!(payout(sum), 0);
    }
    for sum in 25..=255u8 {
        assert_eq!(payout(sum), 0);
    }
}

#[test]
fn set_rejects_out_of_range_index() {
    let mut c = Cactpot::new();
    assert_eq!(c.set(9, 5), Err(CactpotError::OutOfRange));
    assert_eq!(c.set(usize::MAX, 5), Err(CactpotError::OutOfRange));
}

#[test]
fn set_rejects_invalid_values() {
    let mut c = Cactpot::new();
    assert_eq!(c.set(0, 0), Err(CactpotError::InvalidValue));
    assert_eq!(c.set(0, 10), Err(CactpotError::InvalidValue));
    assert_eq!(c.set(0, 255), Err(CactpotError::InvalidValue));
}

#[test]
fn set_rejects_duplicate_values() {
    let mut c = Cactpot::new();
    assert_eq!(c.set(3, 7), Ok(()));
    assert_eq!(c.set(5, 7), Err(CactpotError::DuplicateValue));
    // the cell itself counts too: re-revealing the same digit is refused
    assert_eq!(c.set(3, 7), Err(CactpotError::DuplicateValue));
}

#[test]
fn set_accepts_fresh_value_and_it_becomes_visible() {
    let mut c = Cactpot::new();
    assert_eq!(c.set(4, 5), Ok(()));
    assert_eq!(c.cell(4), 5);
    assert_eq!(c.visible_indices(), vec![4]);
    assert_eq!(c.visible_values(), vec![5]);
    assert_eq!(c.hidden_indices(), vec![0, 1, 2, 3, 5, 6, 7, 8]);
    assert_eq!(c.hidden_values(), vec![1, 2, 3, 4, 6, 7, 8, 9]);
}

#[test]
fn read_views_are_idempotent() {
    let mut c = Cactpot::new();
    c.set(2, 9).unwrap();
    c.set(7, 1).unwrap();
    assert_eq!(c.hidden_indices(), c.hidden_indices());
    assert_eq!(c.hidden_values(), c.hidden_values());
    assert_eq!(c.visible_indices(), c.visible_indices());
    assert_eq!(c.visible_values(), c.visible_values());
}

#[test]
fn hidden_values_complement_visible_ones() {
    let mut c = Cactpot::new();
    let reveals: [(usize, u8); 4] = [(0, 3), (4, 8), (8, 1), (2, 5)];
    for (step, (idx, val)) in reveals.into_iter().enumerate() {
        c.set(idx, val).unwrap();
        let hidden = c.hidden_values();
        let visible = c.visible_values();
        assert_eq!(hidden.len(), 9 - (step + 1));
        assert_eq!(hidden.len() + visible.len(), 9);
        for d in 1..=9u8 {
            let on_board = visible.contains(&d);
            assert_eq!(hidden.contains(&d), !on_board);
        }
        // ascending, hence free of duplicates
        for w in hidden.windows(2) {
            assert!(w[0] < w[1]);
        }
    }
}

#[test]
fn empty_board_solves_to_zero_and_corners() {
    let c = Cactpot::new();
    let (e, rec) = c.solve();
    assert_eq!(e.num, 0);
    assert_eq!(e.den, 1);
    assert_eq!(e.num as f64 / e.den as f64, 0.0);
    assert_eq!(rec, Recommendation::Coordinates(vec![0, 2, 6, 8]));
}

#[test]
fn center_five_matches_opening_book() {
    let mut c = Cactpot::new();
    c.set(4, 5).unwrap();
    let (e, rec) = c.solve();
    assert_eq!(e.num as f64 / e.den as f64, 1176.2047619047619);
    assert_eq!(rec, Recommendation::Coordinates(vec![0, 2, 6, 8]));
}

#[test]
fn corner_one_matches_opening_book() {
    let mut c = Cactpot::new();
    c.set(0, 1).unwrap();
    let (e, rec) = c.solve();
    assert_eq!(e.num as f64 / e.den as f64, 1677.7854166666664);
    assert_eq!(rec, Recommendation::Coordinates(vec![2, 6]));
}

#[test]
fn edge_five_matches_opening_book() {
    let mut c = Cactpot::new();
    c.set(3, 5).unwrap();
    let (e, rec) = c.solve();
    assert_eq!(e.num as f64 / e.den as f64, 1444.3172619047618);
    assert_eq!(rec, Recommendation::Coordinates(vec![2, 4, 8]));
}

/// Appends to `out` every ordering of the remaining `vals`.
fn permutations(vals: &mut Vec<u8>, prefix: &mut Vec<u8>, out: &mut Vec<Vec<u8>>) {
    if vals.is_empty() {
        out.push(prefix.clone());
        return;
    }
    for j in 0..vals.len() {
        let v = vals.remove(j);
        prefix.push(v);
        permutations(vals, prefix, out);
        prefix.pop();
        vals.insert(j, v);
    }
}

/// Per-line payout totals over every assignment of the hidden values onto
/// the hidden cells, recomputed from scratch.
fn brute_force_totals(c: &Cactpot) -> (Vec<u64>, u64) {
    let hidden_idx = c.hidden_indices();
    let mut hidden_vals = c.hidden_values();
    let mut perms = Vec::new();
    permutations(&mut hidden_vals, &mut Vec::new(), &mut perms);
    let n_perms = perms.len() as u64;
    let mut totals = vec![0u64; 8];
    for perm in &perms {
        let mut cells: Vec<u8> = (0..9).map(|i| c.cell(i)).collect();
        for (slot, &idx) in hidden_idx.iter().enumerate() {
            cells[idx] = perm[slot];
        }
        for (row, total) in totals.iter_mut().enumerate() {
            let (a, b, d) = row_cells(row);
            *total += payout(cells[a] + cells[b] + cells[d]);
        }
    }
    (totals, n_perms)
}

#[test]
fn five_hidden_matches_brute_force_mean() {
    let mut c = Cactpot::new();
    c.set(0, 4).unwrap();
    c.set(4, 1).unwrap();
    c.set(8, 9).unwrap();
    c.set(5, 2).unwrap();
    let (e, rec) = c.solve();

    let (totals, n_perms) = brute_force_totals(&c);
    assert_eq!(n_perms, 120);
    let max = *totals.iter().max().unwrap();
    let expected_rows: Vec<usize> =
        (0..8).filter(|&r| totals[r] == max).collect();

    assert_eq!(e.num, max);
    assert_eq!(e.den, 120);
    assert_eq!(
        e.num as f64 / e.den as f64,
        max as f64 / 120.0
    );
    assert_eq!(rec, Recommendation::Rows(expected_rows));
}

#[test]
fn full_board_names_the_best_line() {
    let mut c = Cactpot::new();
    for (idx, val) in (0..9).zip(1..=9u8) {
        c.set(idx, val).unwrap();
    }
    let (e, rec) = c.solve();
    // the first row holds 1+2+3 = 6, the jackpot sum
    assert_eq!(e.num, 10000);
    assert_eq!(e.den, 1);
    assert_eq!(rec, Recommendation::Rows(vec![0]));
    assert_eq!(c.row_value(0), 10000);
    // the middle row holds 4+5+6 = 15
    assert_eq!(c.row_value(1), 180);
}

/// An independent exact solver for boards with two or more cells
/// revealed, following the information-gain rule: totals are payout sums,
/// expectations are kept as exact fractions over `hidden!`.
fn brute_force_num(c: &Cactpot) -> u64 {
    let hidden_idx = c.hidden_indices();
    let h = hidden_idx.len();
    if h <= 5 {
        let (totals, _) = brute_force_totals(c);
        return *totals.iter().max().unwrap();
    }
    let hidden_vals = c.hidden_values();
    let mut best = 0u64;
    for &idx in &hidden_idx {
        let mut sum = 0u64;
        for &val in &hidden_vals {
            let mut child = c.clone();
            child.set(idx, val).unwrap();
            sum += brute_force_num(&child);
        }
        best = best.max(sum);
    }
    best
}

#[test]
fn seven_hidden_matches_independent_recomputation() {
    let mut c = Cactpot::new();
    c.set(1, 6).unwrap();
    c.set(6, 3).unwrap();
    let (e, rec) = c.solve();
    assert_eq!(e.den, 5040);
    assert_eq!(e.num, brute_force_num(&c));
    match rec {
        Recommendation::Coordinates(cells) => {
            assert!(!cells.is_empty());
            for &cell in &cells {
                assert!(c.hidden_indices().contains(&cell));
            }
        }
        Recommendation::Rows(_) => panic!("expected a next-reveal recommendation"),
    }
}

#[test]
fn six_hidden_matches_independent_recomputation() {
    let mut c = Cactpot::new();
    c.set(0, 2).unwrap();
    c.set(4, 7).unwrap();
    c.set(8, 5).unwrap();
    let (e, _rec) = c.solve();
    assert_eq!(e.den, 720);
    assert_eq!(e.num, brute_force_num(&c));
}

#[test]
fn grid_index_maps_one_based_coordinates() {
    assert_eq!(grid_index(1, 1), Some(0));
    assert_eq!(grid_index(3, 1), Some(2));
    assert_eq!(grid_index(1, 3), Some(6));
    assert_eq!(grid_index(3, 3), Some(8));
    assert_eq!(grid_index(2, 2), Some(4));
    assert_eq!(grid_index(0, 1), None);
    assert_eq!(grid_index(4, 1), None);
    assert_eq!(grid_index(1, 4), None);
    assert_eq!(grid_index(0, 0), None);
}

#[test]
fn square_to_ch_shows_digits_and_dashes() {
    assert_eq!(Cactpot::square_to_ch(0), '-');
    for d in 1..=9u8 {
        assert_eq!(Cactpot::square_to_ch(d), (b'0' + d) as char);
    }
}
