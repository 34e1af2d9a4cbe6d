//! The settings the window runs by, the fonts it draws with, and what a file can ask of them.

use ab_glyph::Font;
use eframe::egui;
use marks_client::config::{Config, Fonts, Window, MAX_SIDE, MIN_HEIGHT, MIN_WIDTH};
use marks_client::fonts::{available, bundled, default_priority, order_to_install};
use std::path::PathBuf;

/// What the window writes: the arrows in the footer, and the punctuation that arrives with the
/// title of a web page.
const WRITTEN: &str = "↑↓…“”–—’";

#[test]
fn the_window_opens_the_way_it_always_has() {
    let window = Window::default();

    assert!(!window.fixed_size, "a launcher should be resizable by default");
    assert_eq!((window.width, window.height), (620, 440));
}

#[test]
fn tests_the_default_order_draws_with_hack() {
    let fonts = Fonts::default();

    assert_eq!(fonts.priority.first().map(String::as_str), Some("Hack"));
    assert_eq!(fonts.priority, default_priority());
}

/// Whether the font egui carries under `name` has a glyph for `c`, asked of the font file.
fn the_font_has(name: &str, c: char) -> bool {
    let bundled = egui::FontDefinitions::default();
    let data = bundled
        .font_data
        .get(name)
        .unwrap_or_else(|| panic!("egui does not carry a font called {name}"));
    let font = ab_glyph::FontRef::try_from_slice((*data.font).as_ref()).expect("a font egui ships");

    font.glyph_id(c).0 != 0
}

#[test]
fn the_default_font_can_draw_the_arrows() {
    let order = default_priority();

    for c in "↑↓".chars() {
        assert!(
            the_font_has(&order[0], c),
            "{} cannot draw {c:?}, which the window writes",
            order[0]
        );
    }

    for c in WRITTEN.chars() {
        assert!(
            order.iter().any(|name| the_font_has(name, c)),
            "no font in the default order can draw {c:?}"
        );
    }
}

#[test]
fn every_font_the_default_order_names_is_one_egui_carries() {
    let carried = egui::FontDefinitions::default();

    for name in default_priority() {
        assert!(carried.font_data.contains_key(&name), "{name} is not a font egui has");
        assert!(bundled(&name));
    }
    assert_eq!(available(), default_priority());
    assert!(!bundled("Comic Sans"));
}

#[test]
fn an_order_with_nothing_in_it_falls_back_to_the_default() {
    assert_eq!(order_to_install(&[], &[]), default_priority());
    assert_eq!(order_to_install(&["Nothing at all".to_owned()], &[]), default_priority());
}

#[test]
fn the_order_a_setting_gives_is_the_order_the_window_draws_in() {
    let wanted = vec![
        "Ubuntu-Light".to_owned(),
        "emoji-icon-font".to_owned(),
        "Hack".to_owned(),
    ];
    assert_eq!(order_to_install(&wanted, &[]), wanted);
}

#[test]
fn a_name_that_is_no_font_is_left_out_of_the_order_drawn_in() {
    let wanted = vec!["Comic Sans".to_owned(), "Hack".to_owned()];

    assert_eq!(order_to_install(&wanted, &[]), ["Hack"]);
    assert_eq!(order_to_install(&wanted, &["Comic Sans".to_owned()]), wanted);
}

fn read(width: u32, height: u32, fixed: bool, priority: &[&str]) -> Option<(Window, Fonts)> {
    Some((
        Window { fixed_size: fixed, width, height },
        Fonts { priority: priority.iter().map(|name| (*name).to_owned()).collect() },
    ))
}

#[test]
fn a_client_nobody_has_configured_runs_on_the_defaults() {
    let path = PathBuf::from("/tmp/marks-client/config.toml");
    let config = Config::load_from(None, path.clone());

    assert_eq!((config.window.width, config.window.height), (620, 440));
    assert!(!config.window.fixed_size);
    assert_eq!(config.fonts.priority, default_priority());
    assert_eq!(config.path(), Some(&path));
}

#[test]
fn a_size_no_window_could_be_is_brought_within_reach() {
    let config = Config::load_from(read(3, 999_999, false, &["Hack"]), PathBuf::from("c.toml"));

    assert_eq!(config.window.width, MIN_WIDTH, "too narrow to draw the list");
    assert_eq!(config.window.height, MAX_SIDE, "larger than any display");

    let config = Config::load_from(read(100_000, 1, true, &["Hack"]), PathBuf::from("c.toml"));
    assert_eq!((config.window.width, config.window.height), (MAX_SIDE, MIN_HEIGHT));
    assert!(config.window.fixed_size);
}

#[test]
fn a_font_the_client_does_not_carry_is_left_in_the_order() {
    let config = Config::load_from(
        read(700, 500, false, &["Hack", "Comic Sans", "Ubuntu-Light"]),
        PathBuf::from("c.toml"),
    );

    assert_eq!(config.fonts.priority, ["Hack", "Comic Sans", "Ubuntu-Light"]);
    assert_eq!((config.window.width, config.window.height), (700, 500));
}

#[test]
fn a_font_named_twice_is_drawn_once() {
    let config = Config::load_from(
        read(700, 500, false, &["Hack", " Hack ", "", "Ubuntu-Light"]),
        PathBuf::from("c.toml"),
    );

    assert_eq!(config.fonts.priority, ["Hack", "Ubuntu-Light"]);
}

#[test]
fn an_empty_font_order_becomes_the_default_one() {
    let config = Config::load_from(read(700, 500, false, &[]), PathBuf::from("c.toml"));
    assert_eq!(config.fonts.priority, default_priority());

    let config = Config::load_from(read(700, 500, false, &["  ", ""]), PathBuf::from("c.toml"));
    assert_eq!(config.fonts.priority, default_priority());
}

#[test]
fn settling_settled_settings_changes_nothing() {
    let mut fonts = Fonts { priority: vec!["B".to_owned(), " A".to_owned(), "B".to_owned()] };
    fonts.settle();
    assert_eq!(fonts.priority, ["B", "A"]);
    fonts.settle();
    assert_eq!(fonts.priority, ["B", "A"]);

    let mut window = Window { fixed_size: false, width: 10, height: 300 };
    window.clamp();
    assert_eq!((window.width, window.height), (MIN_WIDTH, 300));
    window.clamp();
    assert_eq!((window.width, window.height), (MIN_WIDTH, 300));
}

#[test]
fn a_fixed_window_cannot_be_resized_and_one_that_is_not_has_a_floor() {
    let fixed = Window { fixed_size: true, width: 800, height: 600 };
    let limits = fixed.limits();

    assert!(!limits.resizable);
    assert_eq!(limits.size, (800, 600));
    assert_eq!(limits.min, (800, 600));
    assert_eq!(limits.max, Some((800, 600)));

    let free = Window { fixed_size: false, ..fixed };
    let limits = free.limits();

    assert!(limits.resizable);
    assert_eq!(limits.size, (800, 600));
    assert_eq!(limits.min, (MIN_WIDTH, MIN_HEIGHT));
    assert_eq!(limits.max, None);
}

#[test]
fn a_file_that_is_not_toml_is_not_fatal() {
    // A file that does not read as settings reaches the library as nothing at all.
    let config = Config::load_from(None, PathBuf::from("c.toml"));

    assert_eq!(config.window.width, Window::default().width);
    assert_eq!(config.window.height, Window::default().height);
}

#[test]
fn settings_the_panel_writes_are_read_back_as_they_were() {
    let config = Config::load_from(
        read(800, 600, true, &["Ubuntu-Light", "Hack"]),
        PathBuf::from("c.toml"),
    );

    assert!(config.window.fixed_size);
    assert_eq!((config.window.width, config.window.height), (800, 600));
    assert_eq!(config.fonts.priority, ["Ubuntu-Light", "Hack"]);
}
