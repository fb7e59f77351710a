use palette_maker::color_spaces::{Color, Hex, Hsb, Hsl, Rgb};
use palette_maker::encoding::Encoding;
use palette_maker::error::PaletteError;
use std::collections::HashMap;

#[test]
fn test_get_name() {
    // HSL components are permille: (0, 530, 580) is 0 degrees, 53%, 58%.
    let tests: HashMap<Encoding, String> = HashMap::from([
        (Encoding::Rgb(205, 92, 92), String::from("Indian Red")),
        (Encoding::Rgb(205, 91, 93), String::from("Indian Red")),
        (Encoding::Hsl(0, 530, 580), String::from("Indian Red")),
    ]);

    for (encoding, name) in tests {
        println!("input: {:?}, desired result: {:?}", encoding, name);
        assert_eq!(encoding.get_name(), name);
    }
}

#[test]
fn name_of_a_name_is_itself() {
    let e = Encoding::Name(String::from("Indian Red"));
    assert_eq!(e.get_name(), "Indian Red");
}

#[test]
fn exact_match_and_nearest_match() {
    assert_eq!(Encoding::Rgb(0, 0, 0).get_name(), "Black");
    assert_eq!(Encoding::Rgb(255, 255, 255).get_name(), "White");
    assert_eq!(Encoding::Rgb(1, 1, 2).get_name(), "Black");
    assert_eq!(Encoding::Hex(0xFF0000).get_name(), "Red");
    // Aqua and Cyan share a triple: the first entry of the table wins.
    assert_eq!(Encoding::Rgb(0, 255, 255).get_name(), "Aqua");
}

#[test]
fn name_resolves_to_table_triple() {
    let e = Encoding::Name(String::from("Indian Red"));
    assert_eq!(e.get_rgb(), Ok(Rgb::new(205, 92, 92)));
    assert_eq!(e.get_hex(), Ok(Hex::new(0xCD5C5C)));
}

#[test]
fn unknown_name_is_untranslatable() {
    let e = Encoding::Name(String::from("Not A Color"));
    assert_eq!(
        e.get_rgb(),
        Err(PaletteError::UntranslatableEncoding(String::from("Not A Color")))
    );
    assert!(e.get_hsl().is_err());
    assert!(e.get_hsb().is_err());
    assert!(e.get_hex().is_err());
    assert!(matches!(
        Color::new(e),
        Err(PaletteError::UntranslatableEncoding(_))
    ));
}

#[test]
fn hsl_to_rgb_primaries() {
    assert_eq!(Encoding::Hsl(0, 1000, 500).get_rgb(), Ok(Rgb::new(255, 0, 0)));
    assert_eq!(Encoding::Hsl(120, 1000, 500).get_rgb(), Ok(Rgb::new(0, 255, 0)));
    assert_eq!(Encoding::Hsl(240, 1000, 500).get_rgb(), Ok(Rgb::new(0, 0, 255)));
    assert_eq!(Encoding::Hsl(360, 1000, 500).get_rgb(), Ok(Rgb::new(255, 0, 0)));
}

#[test]
fn hsl_to_rgb_rounds_to_nearest() {
    assert_eq!(Encoding::Hsl(200, 600, 400).get_rgb(), Ok(Rgb::new(41, 122, 163)));
    assert_eq!(Encoding::Hsl(30, 800, 500).get_rgb(), Ok(Rgb::new(230, 128, 26)));
    assert_eq!(Encoding::Hsl(60, 842, 319).get_rgb(), Ok(Rgb::new(150, 150, 13)));
}

#[test]
fn hsb_to_rgb() {
    assert_eq!(Encoding::Hsb(240, 1000, 1000).get_rgb(), Ok(Rgb::new(0, 0, 255)));
    assert_eq!(Encoding::Hsb(0, 0, 1000).get_rgb(), Ok(Rgb::new(255, 255, 255)));
    assert_eq!(Encoding::Hsb(120, 500, 800).get_rgb(), Ok(Rgb::new(102, 204, 102)));
    assert_eq!(Encoding::Hsb(30, 250, 600).get_rgb(), Ok(Rgb::new(153, 134, 115)));
}

#[test]
fn rgb_to_hsl_and_hsb() {
    assert_eq!(Encoding::Rgb(255, 0, 0).get_hsl(), Ok(Hsl::new(0, 1000, 500)));
    assert_eq!(Encoding::Rgb(0, 255, 255).get_hsl(), Ok(Hsl::new(180, 1000, 500)));
    assert_eq!(Encoding::Rgb(205, 92, 92).get_hsl(), Ok(Hsl::new(0, 531, 583)));
    assert_eq!(Encoding::Rgb(10, 20, 200).get_hsl(), Ok(Hsl::new(237, 905, 412)));
    assert_eq!(Encoding::Rgb(205, 92, 92).get_hsb(), Ok(Hsb::new(0, 551, 804)));
    assert_eq!(Encoding::Rgb(10, 20, 200).get_hsb(), Ok(Hsb::new(237, 950, 784)));
}

#[test]
fn red_maximal_with_blue_above_green_wraps_hue() {
    // Red is maximal and blue exceeds green: the hue lies just below 360.
    assert_eq!(Encoding::Rgb(255, 0, 10).get_hsl().unwrap().h, 358);
}

#[test]
fn achromatic_has_zero_hue_and_saturation() {
    assert_eq!(Encoding::Rgb(128, 128, 128).get_hsl(), Ok(Hsl::new(0, 0, 502)));
    assert_eq!(Encoding::Rgb(128, 128, 128).get_hsb(), Ok(Hsb::new(0, 0, 502)));
    assert_eq!(Encoding::Rgb(0, 0, 0).get_hsl(), Ok(Hsl::new(0, 0, 0)));
    assert_eq!(Encoding::Rgb(0, 0, 0).get_hsb(), Ok(Hsb::new(0, 0, 0)));
    assert_eq!(Encoding::Rgb(255, 255, 255).get_hsl(), Ok(Hsl::new(0, 0, 1000)));
}

#[test]
fn hsl_hsb_direct_formulas() {
    assert_eq!(Encoding::Hsl(120, 1000, 500).get_hsb(), Ok(Hsb::new(120, 1000, 1000)));
    assert_eq!(Encoding::Hsl(60, 842, 319).get_hsb(), Ok(Hsb::new(60, 914, 588)));
    assert_eq!(Encoding::Hsl(10, 700, 0).get_hsb(), Ok(Hsb::new(10, 0, 0)));
    assert_eq!(Encoding::Hsb(240, 1000, 1000).get_hsl(), Ok(Hsl::new(240, 1000, 500)));
    assert_eq!(Encoding::Hsb(120, 500, 800).get_hsl(), Ok(Hsl::new(120, 500, 600)));
    assert_eq!(Encoding::Hsb(30, 250, 600).get_hsl(), Ok(Hsl::new(30, 158, 525)));
    assert_eq!(Encoding::Hsb(0, 0, 1000).get_hsl(), Ok(Hsl::new(0, 0, 1000)));
}

#[test]
fn identity_on_own_representation() {
    assert_eq!(Encoding::Hsl(12, 34, 56).get_hsl(), Ok(Hsl::new(12, 34, 56)));
    assert_eq!(Encoding::Hsb(12, 34, 56).get_hsb(), Ok(Hsb::new(12, 34, 56)));
    assert_eq!(Encoding::Rgb(1, 2, 3).get_rgb(), Ok(Rgb::new(1, 2, 3)));
}

#[test]
fn rgb_hex_round_trip() {
    for &(r, g, b) in &[(0u8, 0u8, 0u8), (255, 255, 255), (205, 92, 92), (1, 2, 3), (18, 52, 86)] {
        let hex = Encoding::Rgb(r, g, b).get_hex().unwrap();
        assert_eq!(hex.h, (r as u32) << 16 | (g as u32) << 8 | b as u32);
        assert_eq!(hex.encode().get_rgb(), Ok(Rgb::new(r, g, b)));
    }
    for v in [0u32, 0x123456, 0xABCDEF, 0xFFFFFF, 0x00FF00] {
        let rgb = Encoding::Hex(v).get_rgb().unwrap();
        assert_eq!(rgb.encode().get_hex(), Ok(Hex::new(v)));
    }
    assert_eq!(Encoding::Hex(0x123456).get_rgb(), Ok(Rgb::new(0x12, 0x34, 0x56)));
}

#[test]
fn hsl_rgb_hsl_within_tolerance() {
    for &(h, s, l) in &[
        (200u16, 600u16, 400u16),
        (30, 800, 500),
        (300, 500, 700),
        (60, 842, 319),
        (0, 530, 580),
        (120, 1000, 500),
    ] {
        let rgb = Encoding::Hsl(h, s, l).get_rgb().unwrap();
        let back = rgb.encode().get_hsl().unwrap();
        let dh = (back.h as i32 - h as i32).rem_euclid(360);
        assert!(dh <= 1 || dh >= 359, "hue {} -> {}", h, back.h);
        assert!((back.s as i32 - s as i32).abs() <= 10, "saturation {} -> {}", s, back.s);
        assert!((back.l as i32 - l as i32).abs() <= 10, "lightness {} -> {}", l, back.l);
    }
}

#[test]
fn hsl_rgb_round_trip_keeps_lightness() {
    for h in (0..=360u16).step_by(15) {
        for s in (0..=1000u16).step_by(37) {
            for l in (0..=1000u16).step_by(13) {
                let rgb = Encoding::Hsl(h, s, l).get_rgb().unwrap();
                let back = rgb.encode().get_hsl().unwrap();
                assert!((back.l as i32 - l as i32).abs() <= 2, "{:?} -> {:?}", (h, s, l), back);
            }
        }
    }
}

#[test]
fn nearly_achromatic_point_loses_its_hue() {
    let rgb = Encoding::Hsl(200, 1, 500).get_rgb().unwrap();
    assert_eq!(rgb, Rgb::new(127, 128, 128));
    assert_eq!(rgb.encode().get_hsl(), Ok(Hsl::new(180, 4, 500)));
}
