use glyphgrid::color::{Color, RgbColor};

#[test]
fn to_rgb_string_formats_lower_hex() {
    let c = RgbColor::new(0x0a, 0x14, 0x1e);
    assert_eq!(c.to_rgb_string(), "#0a141e");
    assert_eq!(RgbColor::new(255, 255, 255).to_rgb_string(), "#ffffff");
    assert_eq!(RgbColor::new(0, 0, 0).to_rgb_string(), "#000000");
}

#[test]
fn from_rgb_str_parses_exact() {
    assert_eq!(RgbColor::from_rgb_str("#0a141e"), Some(RgbColor::new(10, 20, 30)));
    assert_eq!(RgbColor::from_rgb_str("#FFffFF"), Some(RgbColor::new(255, 255, 255)));
    assert_eq!(RgbColor::from_rgb_str("0a141e7"), None);
    assert_eq!(RgbColor::from_rgb_str("#0a141"), None);
    assert_eq!(RgbColor::from_rgb_str("#0a141ef"), None);
    assert_eq!(RgbColor::from_rgb_str("#0g141e"), None);
    assert_eq!(RgbColor::from_rgb_str(""), None);
}

#[test]
fn round_trip_rgb_string() {
    let c = RgbColor::new(1, 2, 3);
    assert_eq!(RgbColor::from_rgb_str(&c.to_rgb_string()), Some(c));
}

#[test]
fn named_colors_resolve_case_insensitively() {
    assert_eq!(RgbColor::from_named("red"), Some(RgbColor::new(255, 0, 0)));
    assert_eq!(RgbColor::from_named("Red"), Some(RgbColor::new(255, 0, 0)));
    assert_eq!(RgbColor::from_named("REBECCAPURPLE"), Some(RgbColor::new(0x66, 0x33, 0x99)));
    assert_eq!(RgbColor::from_named("no such color"), None);
}

#[test]
fn named_or_rgb_string_tries_both() {
    assert_eq!(
        RgbColor::from_named_or_rgb_string("#010203"),
        Some(RgbColor::new(1, 2, 3))
    );
    assert_eq!(
        RgbColor::from_named_or_rgb_string("navy"),
        Some(RgbColor::new(0, 0, 128))
    );
    assert_eq!(RgbColor::from_named_or_rgb_string("#nothex"), None);
}

#[test]
fn packed_color_round_trips() {
    let c = Color::rgba(1, 2, 3, 4);
    assert_eq!(c.as_rgba(), (1, 2, 3, 4));
    let o = Color::rgb(10, 20, 30);
    assert_eq!(o.as_rgba(), (10, 20, 30, 0xff));
    assert_eq!(
        Color::rgba(1, 2, 3, 4).0,
        (3u32 << 24) | (2u32 << 16) | (1u32 << 8) | 4u32
    );
}
