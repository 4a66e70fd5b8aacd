use ige_core::histogram::{fill_row_intervals, maximal_rectangles, update_heights};

fn brute_force_maximal(h: &[usize]) -> Vec<(usize, usize, usize)> {
    let n = h.len();
    let mut out = Vec::new();
    for s in 0..n {
        for e in (s + 1)..=n {
            let m = *h[s..e].iter().min().unwrap();
            if m == 0 {
                continue;
            }
            let left = s == 0 || h[s - 1] < m;
            let right = e == n || h[e] < m;
            if left && right {
                out.push((s, e, m));
            }
        }
    }
    out.sort_by(|a, b| a.1.cmp(&b.1).then(b.0.cmp(&a.0)));
    out
}

#[test]
fn equal_columns_give_one_rectangle() {
    assert_eq!(maximal_rectangles(&vec![2, 2]), vec![(0, 2, 2)]);
}

#[test]
fn step_down_gives_two_rectangles() {
    assert_eq!(maximal_rectangles(&vec![3, 2]), vec![(0, 1, 3), (0, 2, 2)]);
}

#[test]
fn valley_splits_tall_columns() {
    assert_eq!(
        maximal_rectangles(&vec![2, 1, 2]),
        vec![(0, 1, 2), (2, 3, 2), (0, 3, 1)]
    );
}

#[test]
fn empty_and_zero_histograms_have_no_rectangles() {
    assert!(maximal_rectangles(&vec![]).is_empty());
    assert!(maximal_rectangles(&vec![0, 0, 0]).is_empty());
}

#[test]
fn matches_brute_force_on_many_histograms() {
    let mut seed: u64 = 7;
    for _ in 0..300 {
        seed = seed.wrapping_mul(6364136223846793005).wrapping_add(1442695040888963407);
        let n = (seed >> 60) as usize + 1;
        let mut h = Vec::new();
        for k in 0..n {
            h.push(((seed >> (k * 3 % 48)) & 3) as usize);
        }
        assert_eq!(maximal_rectangles(&h), brute_force_maximal(&h), "heights {:?}", h);
    }
}

#[test]
fn every_rectangle_lies_in_a_candidate() {
    let h = vec![1, 3, 2, 4, 4, 0, 2, 5, 1];
    let cands = maximal_rectangles(&h);
    for s in 0..h.len() {
        for e in (s + 1)..=h.len() {
            let m = *h[s..e].iter().min().unwrap();
            for hh in 1..=m {
                assert!(cands.iter().any(|&(cs, ce, cm)| cs <= s && e <= ce && hh <= cm));
            }
        }
    }
}

#[test]
fn heights_count_consecutive_inside_cells() {
    // 3 columns, 3 rows, row-major
    let mask = vec![true, false, true, true, true, false, true, true, true];
    let mut heights = vec![0usize; 3];
    update_heights(&mut heights, &mask, 0);
    assert_eq!(heights, vec![1, 0, 1]);
    update_heights(&mut heights, &mask, 1);
    assert_eq!(heights, vec![2, 1, 0]);
    update_heights(&mut heights, &mask, 2);
    assert_eq!(heights, vec![3, 2, 1]);
}

#[test]
fn largest_square_of_full_grid_found_on_last_row() {
    let n = 4;
    let mask = vec![true; n * n];
    let mut heights = vec![0usize; n];
    let mut best = 0;
    for r in 0..n {
        update_heights(&mut heights, &mask, r);
        for (s, e, m) in maximal_rectangles(&heights) {
            best = best.max((e - s) * m);
        }
    }
    assert_eq!(best, 16);
}

#[test]
fn row_intervals_mark_only_their_row() {
    let mut mask = vec![false; 12];
    fill_row_intervals(&mut mask, 1, 4, &vec![(0, 1), (2, 9)]);
    assert_eq!(
        mask,
        vec![false, false, false, false, true, false, true, true, false, false, false, false]
    );
}

#[test]
fn empty_or_reversed_intervals_mark_nothing() {
    let mut mask = vec![false; 6];
    fill_row_intervals(&mut mask, 0, 3, &vec![(2, 2), (3, 1)]);
    assert_eq!(mask, vec![false; 6]);
}
