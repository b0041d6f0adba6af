use fridge::filter::{Filter, MeanFilter, PlausibleFilter};

fn feed<F: Filter>(f: &mut F, inputs: &[i32]) -> Vec<i32> {
    inputs.iter().map(|v| f.filter(*v)).collect()
}

#[test]
fn mean_first_sample_passes_through() {
    let mut f = MeanFilter::new(5);
    assert_eq!(f.filter(400), 400);
}

#[test]
fn mean_blends_previous_output_with_sample() {
    let mut f = MeanFilter::new(5);
    assert_eq!(feed(&mut f, &[400, 0, 0, 1000]), vec![400, 320, 256, 404]);
}

#[test]
fn mean_rounds_toward_zero() {
    let mut f = MeanFilter::new(5);
    assert_eq!(feed(&mut f, &[-3, 0, 0, 0]), vec![-3, -2, -1, 0]);
    let mut g = MeanFilter::new(5);
    assert_eq!(feed(&mut g, &[3, 0, 0, 0]), vec![3, 2, 1, 0]);
    let mut h = MeanFilter::new(5);
    assert_eq!(feed(&mut h, &[400, -1000]), vec![400, 120]);
    let mut k = MeanFilter::new(5);
    assert_eq!(feed(&mut k, &[-400, 1000, -7]), vec![-400, -120, -97]);
}

#[test]
fn mean_constant_stream_is_settled_from_the_first_tick() {
    for n in [1, 2, 5, 10, 1000] {
        for v in [-4096, -1, 0, 1, 400, 4096] {
            let mut f = MeanFilter::new(n);
            for _ in 0..50 {
                assert_eq!(f.filter(v), v);
            }
        }
    }
}

#[test]
fn mean_window_of_one_passes_every_sample_through() {
    let mut f = MeanFilter::new(1);
    let inputs = [5, -7, 4096, 0, i32::MAX, i32::MIN, 12];
    assert_eq!(feed(&mut f, &inputs), inputs.to_vec());
}

#[test]
fn mean_converges_from_the_far_side_of_zero() {
    // 1000 -> 400 with a window of 10: the distance shrinks by a tenth or more per tick.
    let mut f = MeanFilter::new(10);
    assert_eq!(f.filter(1000), 1000);
    let mut distance = 600;
    let mut ticks = 0;
    while distance > 0 {
        let out = f.filter(400);
        assert!(out >= 400);
        assert!(10 * (out - 400) <= 9 * distance);
        distance = out - 400;
        ticks += 1;
    }
    assert!(ticks <= 600);
    assert_eq!(ticks, 45);
    assert_eq!(f.filter(400), 400);

    let mut g = MeanFilter::new(10);
    assert_eq!(g.filter(-1000), -1000);
    let mut last = -1000;
    for _ in 0..600 {
        let out = g.filter(-400);
        assert!(last <= out && out <= -400);
        last = out;
    }
    assert_eq!(last, -400);
}

#[test]
fn mean_stalls_short_of_a_target_away_from_zero() {
    let mut f = MeanFilter::new(10);
    assert_eq!(f.filter(0), 0);
    for _ in 0..100 {
        assert_eq!(f.filter(5), 0);
    }
    let mut g = MeanFilter::new(10);
    assert_eq!(g.filter(0), 0);
    let mut last = 0;
    for _ in 0..1000 {
        last = g.filter(400);
    }
    assert_eq!(last, 391);
}

#[test]
fn mean_output_stays_within_the_bounds_of_its_inputs() {
    let inputs = [300, 250, 417, 250, 417, 416, 251, 300, 417, 250, 250, 250, 417, 417];
    for n in [1, 2, 3, 7, 20] {
        let mut f = MeanFilter::new(n);
        for out in feed(&mut f, &inputs) {
            assert!(250 <= out && out <= 417);
        }
    }
    let negative = [-5, -90, -17, -90, -5, -5, -33];
    for n in [1, 2, 3, 7, 20] {
        let mut f = MeanFilter::new(n);
        for out in feed(&mut f, &negative) {
            assert!(-90 <= out && out <= -5);
        }
    }
}

#[test]
fn mean_takes_extreme_values_and_windows() {
    let mut f = MeanFilter::new(i32::MAX);
    assert_eq!(f.filter(i32::MAX), i32::MAX);
    assert_eq!(f.filter(i32::MAX), i32::MAX);
    assert_eq!(f.filter(i32::MIN), i32::MAX - 3);
    let mut g = MeanFilter::new(2);
    assert_eq!(g.filter(i32::MIN), i32::MIN);
    assert_eq!(g.filter(i32::MAX), 0);
    assert_eq!(g.filter(i32::MIN), -1073741824);
}

#[test]
fn plausible_rejects_until_tolerance_is_used_up() {
    let mut f = PlausibleFilter::new(3, 10);
    assert_eq!(feed(&mut f, &[100, 500, 500, 500, 500]), vec![100, 100, 100, 100, 500]);
}

#[test]
fn plausible_boundary_is_inclusive() {
    let mut f = PlausibleFilter::new(3, 10);
    assert_eq!(f.filter(100), 100);
    assert_eq!(f.filter(110), 110);

    let mut g = PlausibleFilter::new(3, 10);
    assert_eq!(g.filter(100), 100);
    assert_eq!(g.filter(111), 100);

    let mut h = PlausibleFilter::new(3, 10);
    assert_eq!(h.filter(100), 100);
    assert_eq!(h.filter(90), 90);
    assert_eq!(h.filter(79), 90);
}

#[test]
fn plausible_first_sample_is_always_accepted() {
    let mut f = PlausibleFilter::new(5, 0);
    assert_eq!(f.filter(-12345), -12345);
    let mut g = PlausibleFilter::new(0, -1);
    assert_eq!(g.filter(4096), 4096);
}

#[test]
fn plausible_without_tolerance_accepts_every_jump() {
    let mut f = PlausibleFilter::new(0, 10);
    assert_eq!(feed(&mut f, &[100, 500, 0, 4096, 4000]), vec![100, 500, 0, 4096, 4000]);
}

#[test]
fn plausible_accepted_sample_clears_the_failure_count() {
    let mut f = PlausibleFilter::new(2, 10);
    // two rejected, one accepted, then the tolerance is whole again
    assert_eq!(
        feed(&mut f, &[100, 500, 500, 105, 500, 500, 500, 500]),
        vec![100, 100, 100, 105, 105, 105, 500, 500]
    );
}

#[test]
fn plausible_rejected_sample_does_not_move_the_reference() {
    let mut f = PlausibleFilter::new(5, 10);
    assert_eq!(feed(&mut f, &[100, 120, 111, 110]), vec![100, 100, 100, 110]);
}

#[test]
fn plausible_negative_diff_makes_every_later_sample_implausible() {
    let mut f = PlausibleFilter::new(1, -1);
    assert_eq!(feed(&mut f, &[7, 7, 7, 7, 7, 8]), vec![7, 7, 7, 7, 7, 7]);
    let mut g = PlausibleFilter::new(1, -1);
    assert_eq!(feed(&mut g, &[7, 8, 9, 10]), vec![7, 7, 9, 9]);
}

#[test]
fn plausible_measures_the_jump_without_overflow() {
    let mut f = PlausibleFilter::new(1, i32::MAX);
    assert_eq!(feed(&mut f, &[i32::MIN, i32::MAX, i32::MAX]), vec![i32::MIN, i32::MIN, i32::MAX]);
    let mut g = PlausibleFilter::new(u32::MAX, 1);
    assert_eq!(feed(&mut g, &[0, 2, 2, 2, 1]), vec![0, 0, 0, 0, 1]);
}

#[test]
fn plausible_always_believes_a_jump_that_lasts() {
    for n in 0..6u32 {
        let mut f = PlausibleFilter::new(n, 10);
        assert_eq!(f.filter(0), 0);
        let mut rejected = 0;
        while f.filter(1000) != 1000 {
            rejected += 1;
            assert!(rejected <= n);
        }
        assert_eq!(rejected, n);
    }
}
