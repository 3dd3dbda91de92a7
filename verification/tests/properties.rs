use mtla::level::classify;
use mtla::level::find_mask;
use mtla::level::Level;
use mtla::points::gen_point_list;
use mtla::reducer::mtla_matmul;
use mtla::reducer::run;
use mtla::reducer::ConfigError;

/// The reference classification pattern for a 24-position sequence with a
/// window of 6: entry [y][x] is the level code of key x for query y.
fn reference_grid() -> Vec<Vec<u8>> {
    vec![
        vec![1, 0, 0, 0, 0, 0, 0, 0, 0, 0, 0, 0, 0, 0, 0, 0, 0, 0, 0, 0, 0, 0, 0, 0],
        vec![1, 1, 0, 0, 0, 0, 0, 0, 0, 0, 0, 0, 0, 0, 0, 0, 0, 0, 0, 0, 0, 0, 0, 0],
        vec![1, 1, 1, 0, 0, 0, 0, 0, 0, 0, 0, 0, 0, 0, 0, 0, 0, 0, 0, 0, 0, 0, 0, 0],
        vec![1, 1, 1, 1, 0, 0, 0, 0, 0, 0, 0, 0, 0, 0, 0, 0, 0, 0, 0, 0, 0, 0, 0, 0],
        vec![1, 1, 1, 1, 1, 0, 0, 0, 0, 0, 0, 0, 0, 0, 0, 0, 0, 0, 0, 0, 0, 0, 0, 0],
        vec![1, 1, 1, 1, 1, 1, 0, 0, 0, 0, 0, 0, 0, 0, 0, 0, 0, 0, 0, 0, 0, 0, 0, 0],
        vec![1, 1, 1, 1, 1, 1, 1, 0, 0, 0, 0, 0, 0, 0, 0, 0, 0, 0, 0, 0, 0, 0, 0, 0],
        vec![0, 2, 1, 1, 1, 1, 1, 1, 0, 0, 0, 0, 0, 0, 0, 0, 0, 0, 0, 0, 0, 0, 0, 0],
        vec![0, 2, 1, 1, 1, 1, 1, 1, 1, 0, 0, 0, 0, 0, 0, 0, 0, 0, 0, 0, 0, 0, 0, 0],
        vec![0, 2, 0, 2, 1, 1, 1, 1, 1, 1, 0, 0, 0, 0, 0, 0, 0, 0, 0, 0, 0, 0, 0, 0],
        vec![0, 2, 0, 2, 1, 1, 1, 1, 1, 1, 1, 0, 0, 0, 0, 0, 0, 0, 0, 0, 0, 0, 0, 0],
        vec![0, 2, 0, 2, 0, 2, 1, 1, 1, 1, 1, 1, 0, 0, 0, 0, 0, 0, 0, 0, 0, 0, 0, 0],
        vec![0, 2, 0, 2, 0, 2, 1, 1, 1, 1, 1, 1, 1, 0, 0, 0, 0, 0, 0, 0, 0, 0, 0, 0],
        vec![0, 2, 0, 2, 0, 2, 0, 2, 1, 1, 1, 1, 1, 1, 0, 0, 0, 0, 0, 0, 0, 0, 0, 0],
        vec![0, 2, 0, 2, 0, 2, 0, 2, 1, 1, 1, 1, 1, 1, 1, 0, 0, 0, 0, 0, 0, 0, 0, 0],
        vec![0, 0, 0, 4, 0, 2, 0, 2, 0, 2, 1, 1, 1, 1, 1, 1, 0, 0, 0, 0, 0, 0, 0, 0],
        vec![0, 0, 0, 4, 0, 2, 0, 2, 0, 2, 1, 1, 1, 1, 1, 1, 1, 0, 0, 0, 0, 0, 0, 0],
        vec![0, 0, 0, 4, 0, 0, 0, 2, 0, 2, 0, 2, 1, 1, 1, 1, 1, 1, 0, 0, 0, 0, 0, 0],
        vec![0, 0, 0, 4, 0, 0, 0, 2, 0, 2, 0, 2, 1, 1, 1, 1, 1, 1, 1, 0, 0, 0, 0, 0],
        vec![0, 0, 0, 4, 0, 0, 0, 4, 0, 2, 0, 2, 0, 2, 1, 1, 1, 1, 1, 1, 0, 0, 0, 0],
        vec![0, 0, 0, 4, 0, 0, 0, 4, 0, 2, 0, 2, 0, 2, 1, 1, 1, 1, 1, 1, 1, 0, 0, 0],
        vec![0, 0, 0, 4, 0, 0, 0, 4, 0, 0, 0, 2, 0, 2, 0, 2, 1, 1, 1, 1, 1, 1, 0, 0],
        vec![0, 0, 0, 4, 0, 0, 0, 4, 0, 0, 0, 2, 0, 2, 0, 2, 1, 1, 1, 1, 1, 1, 1, 0],
        vec![0, 0, 0, 4, 0, 0, 0, 4, 0, 0, 0, 4, 0, 2, 0, 2, 0, 2, 1, 1, 1, 1, 1, 1],
    ]
}

#[test]
fn classification_matches_reference_pattern() {
    let expected = reference_grid();
    for y in 0..24usize {
        for x in 0..24usize {
            assert_eq!(find_mask(x, y, 6), expected[y][x], "cell ({}, {})", x, y);
        }
    }
}

#[test]
fn classify_agrees_with_find_mask() {
    for y in 0..24usize {
        for x in 0..24usize {
            let code: u8 = match classify(x, y, 6) {
                Level::Skip => 0,
                Level::Full => 1,
                Level::Half => 2,
                Level::Quarter => 4,
            };
            assert_eq!(code, find_mask(x, y, 6));
        }
    }
}

#[test]
fn causality_skips_future_keys() {
    for window in 1..10usize {
        for y in 0..30usize {
            for x in (y + 1)..30usize {
                assert_eq!(find_mask(x, y, window), 0);
                assert!(classify(x, y, window) == Level::Skip);
            }
        }
    }
}

#[test]
fn classify_and_generate_are_deterministic() {
    for y in 0..24usize {
        for x in 0..24usize {
            assert!(classify(x, y, 6) == classify(x, y, 6));
        }
    }
    assert_eq!(gen_point_list(24, 6), gen_point_list(24, 6));
    let a: Vec<i32> = vec![1; 24 * 4];
    let b: Vec<i32> = vec![1; 24 * 4];
    assert_eq!(run(&a, &b, 24, 4, 6), run(&a, &b, 24, 4, 6));
}

#[test]
fn generated_items_cover_distinct_cells() {
    let points = gen_point_list(24, 6);
    for i in 0..points.len() {
        for j in (i + 1)..points.len() {
            assert_ne!(points[i].0, points[j].0);
        }
    }
}

#[test]
fn generated_items_match_classifier_in_order() {
    let points = gen_point_list(24, 6);
    let mut at: usize = 0;
    for y in 0..24usize {
        for x in 0..24usize {
            let mask: u8 = find_mask(x, y, 6);
            if mask != 0 {
                assert_eq!(points[at], ((x, y), mask));
                at += 1;
            }
        }
    }
    assert_eq!(at, points.len());
}

#[test]
fn pooled_items_have_deep_enough_keys() {
    let points = gen_point_list(24, 6);
    for ((x, _y), mask) in points {
        if mask == 2 {
            assert!(x >= 1);
        }
        if mask == 4 {
            assert!(x >= 3);
        }
    }
}

/// Information content of a level code: full > half > quarter.
fn info(mask: u8) -> u8 {
    match mask {
        1 => 3,
        2 => 2,
        4 => 1,
        _ => 0,
    }
}

#[test]
fn resolution_is_monotone_within_a_row() {
    for window in 1..9usize {
        for y in 0..32usize {
            let mut last: u8 = 0;
            for x in 0..=y {
                let mask: u8 = find_mask(x, y, window);
                if mask != 0 {
                    assert!(info(mask) >= last, "row {} key {} window {}", y, x, window);
                    last = info(mask);
                }
            }
        }
    }
}

#[test]
fn output_matches_reference_pattern_for_all_ones() {
    // With every element 1 and four features, a full cell scores 4, a
    // half-pooled cell 8, a quarter-pooled cell 16: four times the code.
    let a: Vec<i32> = vec![1; 24 * 4];
    let b: Vec<i32> = vec![1; 24 * 4];
    let out = run(&a, &b, 24, 4, 6).unwrap();
    let expected = reference_grid();
    assert_eq!(out.len(), 24 * 24);
    for y in 0..24usize {
        for x in 0..24usize {
            assert_eq!(out[y * 24 + x], 4 * expected[y][x] as i32, "cell ({}, {})", x, y);
        }
    }
}

#[test]
fn output_pools_the_right_key_rows() {
    // One feature per row, with key row k holding the value k: a full cell
    // at key x scores x, a half-pooled one 2x - 1, a quarter-pooled one
    // 4x - 6, so any misplaced pooling window shows up in the sums.
    let a: Vec<i32> = vec![1; 24];
    let mut b: Vec<i32> = Vec::new();
    for k in 0..24i32 {
        b.push(k);
    }
    let out = run(&a, &b, 24, 1, 6).unwrap();
    let expected = reference_grid();
    for y in 0..24usize {
        for x in 0..24usize {
            let want: i32 = match expected[y][x] {
                1 => x as i32,
                2 => 2 * x as i32 - 1,
                4 => 4 * x as i32 - 6,
                _ => 0,
            };
            assert_eq!(out[y * 24 + x], want, "cell ({}, {})", x, y);
        }
    }
}

#[test]
fn full_coverage_for_small_sequences_inside_the_window() {
    // With the window at least as long as the sequence, every causal cell is
    // full resolution and the output is a plain causal dot-product matrix.
    for t in 1..=8usize {
        let points = gen_point_list(t, 8);
        let mut at: usize = 0;
        for y in 0..t {
            for x in 0..t {
                if x <= y {
                    assert_eq!(points[at], ((x, y), 1));
                    at += 1;
                }
            }
        }
        assert_eq!(at, points.len());

        let d: usize = 3;
        let a: Vec<i32> = vec![1; t * d];
        let b: Vec<i32> = vec![1; t * d];
        let out = run(&a, &b, t, d, 8).unwrap();
        for y in 0..t {
            for x in 0..t {
                let want: i32 = if x <= y { d as i32 } else { 0 };
                assert_eq!(out[y * t + x], want);
            }
        }
    }
}

#[test]
fn zero_sized_configuration_is_rejected() {
    let a: Vec<i32> = vec![1; 4];
    let b: Vec<i32> = vec![1; 4];
    assert_eq!(run(&a, &b, 0, 4, 6), Err(ConfigError::NonPositiveParam));
    assert_eq!(run(&a, &b, 1, 0, 6), Err(ConfigError::NonPositiveParam));
    assert_eq!(run(&a, &b, 1, 4, 0), Err(ConfigError::NonPositiveParam));
}

#[test]
fn mismatched_shapes_are_rejected() {
    let a: Vec<i32> = vec![1; 8];
    let b: Vec<i32> = vec![1; 8];
    assert_eq!(run(&a, &b, 3, 4, 6), Err(ConfigError::ShapeMismatch));
    let short: Vec<i32> = vec![1; 7];
    assert_eq!(run(&a, &short, 2, 4, 6), Err(ConfigError::ShapeMismatch));
    assert_eq!(run(&short, &b, 2, 4, 6), Err(ConfigError::ShapeMismatch));
}

#[test]
fn matmul_adds_one_item_into_its_cell() {
    // One work item, key 0 and query 0 at full resolution, on 1 x 2
    // matrices: the dot product 1 * 3 + 2 * 4 lands on top of what the
    // output cell already held.
    let a: Vec<i32> = vec![1, 2];
    let b: Vec<i32> = vec![3, 4];
    let points: Vec<((usize, usize), u8)> = vec![((0, 0), 1)];
    let mut out: Vec<i32> = vec![5];
    mtla_matmul(&a, &b, &mut out, 0, 2, 1, &points);
    assert_eq!(out, vec![16]);
}

#[test]
fn matmul_pools_two_and_four_key_rows() {
    // Three items on 4 x 1 matrices: full at key 1, half at key 1 (rows 0
    // and 1), quarter at key 3 (rows 0 through 3).
    let a: Vec<i32> = vec![2, 2, 2, 2];
    let b: Vec<i32> = vec![10, 20, 30, 40];
    let points: Vec<((usize, usize), u8)> = vec![((1, 0), 1), ((1, 1), 2), ((3, 2), 4)];
    let mut out: Vec<i32> = vec![0; 16];
    mtla_matmul(&a, &b, &mut out, 0, 1, 4, &points);
    mtla_matmul(&a, &b, &mut out, 1, 1, 4, &points);
    mtla_matmul(&a, &b, &mut out, 2, 1, 4, &points);
    assert_eq!(out[0 * 4 + 1], 2 * 20);
    assert_eq!(out[1 * 4 + 1], 2 * (10 + 20));
    assert_eq!(out[2 * 4 + 3], 2 * (10 + 20 + 30 + 40));
}
