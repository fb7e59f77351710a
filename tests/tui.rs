use palette_maker::color_spaces::{Color, Rgb};
use palette_maker::error::PaletteError;
use palette_maker::file::parse_palette;
use palette_maker::tui::App;

#[test]
fn q_quits_other_keys_do_not() {
    let mut app = App::default();
    app.handle_key('x');
    assert!(!app.exit);
    app.handle_key('q');
    assert!(app.exit);
    app.handle_key('x');
    assert!(app.exit);
}

#[test]
fn startup_prefers_the_cache() {
    let mut app = App::default();
    let cached = vec![Color::from_rgb(Rgb::new(1, 2, 3))];
    app.startup(Ok(cached.clone()));
    assert_eq!(app.colors, cached);
}

#[test]
fn startup_generates_without_cache() {
    let mut app = App::default();
    app.startup(Err(PaletteError::Io(String::from("missing"))));
    assert_eq!(app.colors.len(), 5);
    assert!(!app.exit);
}

#[test]
fn shutdown_writes_cache_lines() {
    let mut app = App::default();
    app.startup(Ok(vec![
        Color::from_rgb(Rgb::new(205, 92, 92)),
        Color::from_rgb(Rgb::new(0, 0, 0)),
    ]));
    let text = app.shutdown();
    assert_eq!(text, "205,92,92\n0,0,0\n");
    assert_eq!(parse_palette(&text).unwrap(), app.colors);
}
