use palette_maker::color_spaces::{Color, Hex, Hsb, Hsl, Rgb};
use palette_maker::encoding::Encoding;

#[test]
fn color_from_rgb_fills_every_form() {
    let c = Color::new(Encoding::Rgb(205, 92, 92)).unwrap();
    assert_eq!(c.rgb, Rgb::new(205, 92, 92));
    assert_eq!(c.hsl, Hsl::new(0, 531, 583));
    assert_eq!(c.hsb, Hsb::new(0, 551, 804));
    assert_eq!(c.hex, Hex::new(0xCD5C5C));
    assert_eq!(c.name, "Indian Red");
    assert!(!c.locked);
}

#[test]
fn color_from_name_and_hex() {
    let c = Color::new(Encoding::Name(String::from("Indian Red"))).unwrap();
    assert_eq!(c.rgb, Rgb::new(205, 92, 92));
    assert_eq!(c.name, "Indian Red");
    let h = Color::new(Encoding::Hex(0x0000FF)).unwrap();
    assert_eq!(h.hsl, Hsl::new(240, 1000, 500));
    assert_eq!(h.name, "Blue");
}

#[test]
fn color_from_hsl_keeps_hsl() {
    let c = Color::new(Hsl::new(60, 842, 319).encode()).unwrap();
    assert_eq!(c.hsl, Hsl::new(60, 842, 319));
    assert_eq!(c.rgb, Rgb::new(150, 150, 13));
    assert_eq!(c.hsb, Hsb::new(60, 914, 588));
    assert_eq!(c, Color::from_hsl(Hsl::new(60, 842, 319)));
    assert_eq!(Color::from_rgb(Rgb::new(1, 2, 3)), Color::new(Rgb::new(1, 2, 3).encode()).unwrap());
}

#[test]
fn encode_round_trips_constructors() {
    assert_eq!(Hsl::new(1, 2, 3).encode(), Encoding::Hsl(1, 2, 3));
    assert_eq!(Rgb::new(1, 2, 3).encode(), Encoding::Rgb(1, 2, 3));
    assert_eq!(Hsb::new(1, 2, 3).encode(), Encoding::Hsb(1, 2, 3));
    assert_eq!(Hex::new(0x010203).encode(), Encoding::Hex(0x010203));
}
