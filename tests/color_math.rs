use palette_maker::color_math::{
    analogous, complement, generate_color, generate_palette, generate_palette_from_base,
    gradient, highest_method, monochromatic, n_color_average_complement, palette_step, square,
    three_node_distance_rgb, triad,
};
use palette_maker::color_spaces::{Color, Hsl, Rgb};
use std::collections::HashMap;

#[test]
fn test_complement() {
    let tests: HashMap<Hsl, Hsl> = HashMap::from([
        (Hsl::new(60, 842, 319), Hsl::new(240, 842, 319)),
        (Hsl::new(250, 842, 319), Hsl::new(70, 842, 319)),
    ]);
    for (hsl, desired_result) in tests {
        println!("input: {:?}, desired_result: {:?}", hsl, desired_result);
        let result = complement(hsl);
        assert_eq!(result, desired_result);
    }
}

#[test]
fn test_triad() {
    let tests: HashMap<Hsl, (Hsl, Hsl)> = HashMap::from([(
        Hsl::new(60, 842, 319),
        (Hsl::new(300, 842, 319), Hsl::new(180, 842, 319)),
    )]);
    for (hsl, desired_results) in tests {
        let (desired_result1, desired_result2) = desired_results;
        println!(
            "input: {:?}, desired_result1: {:?}, desired_result2: {:?}",
            hsl, desired_result1, desired_result2
        );
        let results = triad(hsl);
        let (result1, result2) = results;
        if !(result1 == desired_result1 && result2 == desired_result2) {
            panic!("result1: {:?}, result2: {:?}", result1, result2);
        }
    }
}

#[test]
fn test_square() {
    let tests: HashMap<Hsl, (Hsl, Hsl, Hsl)> = HashMap::from([]);

    for (hsl, desired_results) in tests {
        let (desired_result1, desired_result2, desired_result3) = desired_results;
        println!(
            "input: {:?}, desired_result1: {:?}, desired_result2: {:?}, desired_result3: {:?}",
            hsl, desired_result1, desired_result2, desired_result3
        );
        let results = square(hsl);
        let (result1, result2, result3) = results;
        if !(result1 == desired_result1
            && result2 == desired_result2
            && result3 == desired_result3)
        {
            panic!(
                "result1: {:?}, result2: {:?}, result3: {:?}",
                result1, result2, result3
            );
        }
    }
}

#[test]
fn test_analogous() {
    let tests: HashMap<Hsl, (Hsl, Hsl)> = HashMap::from([
        (
            Hsl::new(60, 842, 319),
            (Hsl::new(30, 842, 319), Hsl::new(90, 842, 319)),
        ),
        (
            Hsl::new(30, 599, 599),
            (Hsl::new(0, 599, 599), Hsl::new(60, 599, 599)),
        ),
        (
            Hsl::new(0, 100, 100),
            (Hsl::new(330, 100, 100), Hsl::new(30, 100, 100)),
        ),
    ]);

    for (hsl, desired_result) in tests {
        let (desired_left, desired_right) = desired_result;
        println!("input: {:?}", hsl);
        let (left, right) = analogous(hsl);
        if !(left == desired_left && right == desired_right) {
            panic!(
                "desired_left: {:?}, left: {:?}, desired_right: {:?}, right: {:?}",
                desired_left, left, desired_right, right
            );
        }
    }
}

#[test]
fn test_monochromatic_basic() {
    let hsl = Hsl::new(120, 500, 300);
    let result = monochromatic(hsl);

    // Upward from 350 to 1000, then downward from 250 to 0, in steps of 50.
    let expected_l: Vec<u16> = (350..=1000)
        .step_by(50)
        .chain((0..=250).rev().step_by(50))
        .collect();

    assert_eq!(result.len(), expected_l.len());

    for (i, l) in expected_l.iter().enumerate() {
        assert_eq!(result[i].h, 120);
        assert_eq!(result[i].s, 500);
        assert_eq!(result[i].l, *l);
    }
}

#[test]
fn test_monochromatic_l_near_bounds() {
    let hsl = Hsl::new(10, 200, 50);
    let result = monochromatic(hsl);

    // 0 is in bounds, one step below 50.
    let expected: Vec<u16> = (100..=1000).step_by(50).chain([0]).collect();
    assert_eq!(result.iter().map(|c| c.l).collect::<Vec<_>>(), expected);
}

#[test]
fn monochromatic_at_the_bounds() {
    assert_eq!(
        monochromatic(Hsl::new(0, 0, 1000)).iter().map(|c| c.l).collect::<Vec<_>>(),
        (0..=950).rev().step_by(50).collect::<Vec<u16>>()
    );
    assert_eq!(
        monochromatic(Hsl::new(0, 0, 0)).iter().map(|c| c.l).collect::<Vec<_>>(),
        (50..=1000).step_by(50).collect::<Vec<u16>>()
    );
    assert_eq!(
        monochromatic(Hsl::new(0, 0, 999)).iter().map(|c| c.l).collect::<Vec<_>>(),
        (49..=949).rev().step_by(50).collect::<Vec<u16>>()
    );
}

#[test]
fn monochromatic_stays_in_bounds_and_skips_input() {
    for l in 0..=1000u16 {
        let result = monochromatic(Hsl::new(200, 300, l));
        assert_eq!(result.len(), ((1000 - l) / 50 + l / 50) as usize);
        for c in &result {
            assert!(c.l <= 1000);
            assert_ne!(c.l, l);
            assert_eq!((c.h, c.s), (200, 300));
        }
    }
}

#[test]
fn test_gradient_basic_linear() {
    let hsl1 = Hsl::new(100, 200, 300);
    let hsl2 = Hsl::new(200, 400, 500);

    let result = gradient(hsl1, hsl2, 5);
    assert_eq!(result.len(), 5);

    let s_interval = (400 - 200) / 5;
    let l_interval = (500 - 300) / 5;
    let h_interval = (200 - 100) / 5;

    let mut expected_h = 100;
    let mut expected_s = 200;
    let mut expected_l = 300;

    for (i, color) in result.iter().enumerate() {
        expected_h = (expected_h + h_interval) % 360;
        expected_s += s_interval;
        expected_l += l_interval;

        assert_eq!(color.h, expected_h as u16, "hue mismatch at step {i}");
        assert_eq!(color.s, expected_s as u16, "hue mismatch at step {i}");
        assert_eq!(color.l, expected_l as u16, "hue mismatch at step {i}");
    }
}

#[test]
fn test_gradient_hue_wrapping_forward() {
    let hsl1 = Hsl::new(350, 500, 500);
    let hsl2 = Hsl::new(250, 500, 500);

    let result = gradient(hsl1, hsl2, 5);
    let h_interval = (250 - 350) / 5;

    let mut expected = 350;
    for (i, c) in result.iter().enumerate() {
        expected = (expected + h_interval) % 360;
        assert_eq!(c.h, expected as u16, "hue wrap mismatch at step {i}");
    }

    let hsl1 = Hsl::new(350, 500, 500);
    let hsl2 = Hsl::new(150, 500, 500);

    let result = gradient(hsl1, hsl2, 5);
    let h_interval = (360 + (150 - 350)) / 5;

    let mut expected = 350;
    for (i, c) in result.iter().enumerate() {
        expected = (expected + h_interval) % 360;
        assert_eq!(c.h, expected as u16, "hue wrap mismatch at step {i}");
    }
}

#[test]
fn test_gradient_hue_wrapping_backward() {
    let hsl1 = Hsl::new(10, 500, 500);
    let hsl2 = Hsl::new(270, 500, 500);

    let result = gradient(hsl1, hsl2, 5);
    // The shorter way from 10 to 270 goes down through 0: 100 degrees.
    let expected: [u16; 5] = [350, 330, 310, 290, 270];
    for (i, c) in result.iter().enumerate() {
        assert_eq!(
            c.h, expected[i],
            "hue backward wrap mismatch at step {i}"
        );
    }
}

#[test]
fn test_gradient_saturation_zero_uses_second_hue() {
    let hsl1 = Hsl::new(180, 0, 300);
    let hsl2 = Hsl::new(90, 500, 900);

    let result = gradient(hsl1, hsl2, 4);

    let expected = 90;

    for c in result {
        assert_eq!(c.h, expected as u16);
    }
}

#[test]
fn gradient_exact_points() {
    // Truncating steps: (30 - 0) / 4 = 7, (-7 - 0) / 4 = -1.
    let result = gradient(Hsl::new(0, 500, 7), Hsl::new(30, 470, 0), 4);
    assert_eq!(
        result,
        vec![
            Hsl::new(7, 493, 6),
            Hsl::new(14, 486, 5),
            Hsl::new(21, 479, 4),
            Hsl::new(28, 472, 3),
        ]
    );
    // A start hue of 360 wraps on the first step.
    let result = gradient(Hsl::new(360, 500, 500), Hsl::new(0, 500, 500), 2);
    assert_eq!(result, vec![Hsl::new(0, 500, 500), Hsl::new(0, 500, 500)]);
    // A difference below -180 steps by the complementary difference and
    // wraps past 360.
    let result = gradient(Hsl::new(350, 500, 500), Hsl::new(10, 500, 500), 2);
    assert_eq!(result[0].h, 0);
    assert_eq!(result[1].h, 10);
}

#[test]
fn gradient_length_is_requested_count() {
    for n in 2..40u32 {
        let result = gradient(Hsl::new(10, 0, 1000), Hsl::new(300, 1000, 0), n);
        assert_eq!(result.len(), n as usize);
        assert!(result.iter().all(|c| c.h == 300));
        assert!(result.iter().all(|c| c.s <= 1000 && c.l <= 1000));
    }
}

#[test]
fn complement_twice_is_identity() {
    for h in 0..360u16 {
        let c = Hsl::new(h, 842, 319);
        assert_eq!(complement(complement(c)), c);
    }
    assert_eq!(complement(complement(Hsl::new(360, 1, 2))), Hsl::new(0, 1, 2));
}

#[test]
fn triad_and_square_are_evenly_spaced() {
    for h in 0..=360u16 {
        let c = Hsl::new(h, 500, 500);
        let (a, b) = triad(c);
        assert_eq!((h as i32 - a.h as i32).rem_euclid(360), 120);
        assert_eq!((b.h as i32 - h as i32).rem_euclid(360), 120);
        assert_eq!((a.h as i32 - b.h as i32).rem_euclid(360), 120);
        let (l, m, r) = square(c);
        assert_eq!((h as i32 - l.h as i32).rem_euclid(360), 90);
        assert_eq!((r.h as i32 - h as i32).rem_euclid(360), 90);
        assert_eq!((m.h as i32 - r.h as i32).rem_euclid(360), 90);
        assert_eq!((l.h as i32 - m.h as i32).rem_euclid(360), 90);
    }
}

#[test]
fn worked_harmony_example() {
    let c = Hsl::new(60, 842, 319);
    assert_eq!(complement(c), Hsl::new(240, 842, 319));
    assert_eq!(triad(c), (Hsl::new(300, 842, 319), Hsl::new(180, 842, 319)));
    assert_eq!(
        square(c),
        (Hsl::new(330, 842, 319), Hsl::new(240, 842, 319), Hsl::new(150, 842, 319))
    );
}

#[test]
fn distance_is_sum_of_squares() {
    assert_eq!(three_node_distance_rgb(Rgb::new(205, 92, 92), Rgb::new(205, 91, 93)), 2);
    assert_eq!(three_node_distance_rgb(Rgb::new(0, 0, 0), Rgb::new(255, 255, 255)), 195075);
    assert_eq!(three_node_distance_rgb(Rgb::new(10, 20, 30), Rgb::new(13, 16, 30)), 25);
    assert_eq!(three_node_distance_rgb(Rgb::new(13, 16, 30), Rgb::new(10, 20, 30)), 25);
}

fn color(h: u16, s: u16, l: u16) -> Color {
    Color::new(Hsl::new(h, s, l).encode()).unwrap()
}

#[test]
fn averaged_complement_averages_each_channel() {
    // Complements: red -> cyan (0,255,255); blue -> yellow (255,255,0).
    // Start from the last (yellow), then average with cyan.
    let nodes = vec![color(0, 1000, 500), color(240, 1000, 500)];
    let avg = n_color_average_complement(&nodes);
    assert_eq!(avg.rgb, Rgb::new(127, 255, 127));
    assert!(!avg.locked);

    let one = vec![color(0, 1000, 500)];
    assert_eq!(n_color_average_complement(&one).rgb, Rgb::new(0, 255, 255));

    // Three nodes: start from green's complement (magenta 255,0,255),
    // then red's (cyan), then blue's (yellow).
    let three = vec![color(0, 1000, 500), color(240, 1000, 500), color(120, 1000, 500)];
    // (255,0,255)+(0,255,255) -> (127,127,255); + (255,255,0) -> (191,191,127)
    assert_eq!(n_color_average_complement(&three).rgb, Rgb::new(191, 191, 127));
}

#[test]
fn generated_color_is_in_domain_and_consistent() {
    for _ in 0..200 {
        let c = generate_color();
        assert!(c.hsl.h <= 360 && c.hsl.s <= 1000 && c.hsl.l <= 1000);
        assert_eq!(Color::new(c.hsl.encode()).unwrap(), c);
    }
}

#[test]
fn random_draws_vary() {
    let first = generate_color().hsl;
    assert!((0..100).any(|_| generate_color().hsl != first));
}

#[test]
fn palette_has_requested_length() {
    for _ in 0..100 {
        let palette = generate_palette(5).unwrap();
        assert_eq!(palette.len(), 5);
    }
    for n in 0..12 {
        assert_eq!(generate_palette(n).unwrap().len(), n);
    }
}

#[test]
fn palette_from_base_keeps_base() {
    let base = vec![color(10, 500, 500), color(200, 300, 700)];
    let result = generate_palette_from_base(base.clone(), 6).unwrap();
    assert_eq!(result.len(), 6);
    assert_eq!(result[..2], base[..]);
    let longer = generate_palette_from_base(base.clone(), 1).unwrap();
    assert_eq!(longer, base);
}

#[test]
fn eligible_methods_fit_remaining_slots() {
    assert_eq!(highest_method(1), 2);
    assert_eq!(highest_method(2), 3);
    assert_eq!(highest_method(3), 4);
    assert_eq!(highest_method(10), 4);
}

#[test]
fn palette_step_methods() {
    let current = vec![color(60, 842, 319), color(0, 1000, 500)];
    let fresh = Hsl::new(7, 8, 9);
    let r = palette_step(&current, 0, 0, fresh);
    assert_eq!(r, vec![color(240, 842, 319)]);
    let r = palette_step(&current, 1, 0, fresh);
    assert_eq!(r, vec![color(7, 8, 9)]);
    let r = palette_step(&current, 2, 0, fresh);
    assert_eq!(r, vec![n_color_average_complement(&current)]);
    let r = palette_step(&current, 3, 0, fresh);
    assert_eq!(r, vec![color(300, 842, 319), color(180, 842, 319)]);
    let r = palette_step(&current, 4, 1, fresh);
    assert_eq!(r, vec![color(270, 1000, 500), color(180, 1000, 500), color(90, 1000, 500)]);
}
