use palette_maker::color_math::generate_palette;
use palette_maker::color_spaces::{Color, Rgb};
use palette_maker::error::PaletteError;
use palette_maker::file::parse_palette;

fn rgb(r: u8, g: u8, b: u8) -> Color {
    Color::from_rgb(Rgb::new(r, g, b))
}

#[test]
fn cache_line_is_decimal_triple() {
    assert_eq!(rgb(205, 92, 92).rgb_to_string(), "205,92,92\n");
    assert_eq!(rgb(0, 7, 255).rgb_to_string(), "0,7,255\n");
    assert_eq!(rgb(10, 100, 99).rgb_to_string(), "10,100,99\n");
}

#[test]
fn hex_display_is_six_upper_digits() {
    assert_eq!(rgb(205, 92, 92).hex_to_string(), "CD5C5C");
    assert_eq!(rgb(0, 0, 15).hex_to_string(), "00000F");
    assert_eq!(rgb(255, 255, 255).hex_to_string(), "FFFFFF");
}

#[test]
fn parses_lines_of_triples() {
    let colors = parse_palette("205,92,92\n0, 7 ,255\n").unwrap();
    assert_eq!(colors.len(), 2);
    assert_eq!(colors[0], rgb(205, 92, 92));
    assert_eq!(colors[1].rgb, Rgb::new(0, 7, 255));
    assert_eq!(colors[0].name, "Indian Red");
    assert!(!colors[0].locked);
}

#[test]
fn parse_accepts_what_integer_parsing_accepts() {
    let colors = parse_palette("+5,007,3\r\n4,5,6").unwrap();
    assert_eq!(colors.iter().map(|c| c.rgb).collect::<Vec<_>>(), vec![Rgb::new(5, 7, 3), Rgb::new(4, 5, 6)]);
    assert_eq!(parse_palette("").unwrap().len(), 0);
}

#[test]
fn wrong_field_count_is_invalid_format() {
    assert_eq!(parse_palette("1,2\n"), Err(PaletteError::InvalidFormat(String::from("1,2"))));
    assert_eq!(parse_palette("1,2,3,4"), Err(PaletteError::InvalidFormat(String::from("1,2,3,4"))));
    assert_eq!(parse_palette("1,2,3\n\n"), Err(PaletteError::InvalidFormat(String::new())));
}

#[test]
fn bad_number_is_parse_error() {
    assert_eq!(parse_palette("1,2,x"), Err(PaletteError::Parse(String::from("x"))));
    assert_eq!(parse_palette("1, 256 ,3"), Err(PaletteError::Parse(String::from("256"))));
    assert_eq!(parse_palette("-1,2,3"), Err(PaletteError::Parse(String::from("-1"))));
    assert_eq!(parse_palette("1,,3"), Err(PaletteError::Parse(String::new())));
    // The first bad line decides.
    assert_eq!(parse_palette("1,2,3\n1,2\n1,2,x"), Err(PaletteError::InvalidFormat(String::from("1,2"))));
}

#[test]
fn saved_palette_loads_back() {
    let palette = generate_palette(7).unwrap();
    let text: String = palette.iter().map(|c| c.rgb_to_string()).collect();
    let loaded = parse_palette(&text).unwrap();
    assert_eq!(loaded.len(), palette.len());
    for (a, b) in loaded.iter().zip(palette.iter()) {
        assert_eq!(a.rgb, b.rgb);
    }
}
