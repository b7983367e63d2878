use glyphgrid::config::{font_info_matches, FontAttributes, Names, TextStyle};

fn names(full: &str, family: Option<&str>, sub: Option<&str>) -> Names {
    Names {
        full_name: full.to_string(),
        unique: None,
        family: family.map(|s| s.to_string()),
        sub_family: sub.map(|s| s.to_string()),
        postscript_name: None,
    }
}

#[test]
fn family_and_subfamily_matching() {
    let bold = FontAttributes::new("Deja Vu".to_string(), true, false);
    let italic = FontAttributes::new("Deja Vu".to_string(), false, true);
    let regular = FontAttributes::new("Deja Vu".to_string(), false, false);
    let both = FontAttributes::new("Deja Vu".to_string(), true, true);

    let n_bold = names("Deja Vu Bold", Some("Deja Vu"), Some("Bold"));
    assert!(font_info_matches(&bold, &n_bold));
    assert!(!font_info_matches(&regular, &n_bold));
    assert!(!font_info_matches(&both, &n_bold));

    let n_italic = names("Deja Vu Italic", Some("Deja Vu"), Some("Italic"));
    assert!(font_info_matches(&italic, &n_italic));
    assert!(!font_info_matches(&bold, &n_italic));

    let n_bi = names("Deja Vu Bold Italic", Some("Deja Vu"), Some("Bold Italic"));
    assert!(font_info_matches(&both, &n_bi));
    assert!(!font_info_matches(&bold, &n_bi));

    let n_reg = names("Deja Vu", Some("Deja Vu"), Some("Regular"));
    assert!(font_info_matches(&regular, &n_reg));
    assert!(!font_info_matches(&bold, &n_reg));
}

#[test]
fn full_name_matches_regular_requests_only() {
    let regular = FontAttributes::new("Some Font Medium".to_string(), false, false);
    let bold = FontAttributes::new("Some Font Medium".to_string(), true, false);
    let n = names("Some Font Medium", Some("Some Font"), Some("Medium"));
    assert!(font_info_matches(&regular, &n));
    assert!(!font_info_matches(&bold, &n));
}

#[test]
fn make_bold_and_italic_set_every_request() {
    let style = TextStyle::default();
    let bolded = style.make_bold();
    assert_eq!(bolded.font.len(), 1);
    assert!(bolded.font[0].bold);
    assert!(!bolded.font[0].italic);
    let italicized = style.make_italic();
    assert!(italicized.font[0].italic);
    assert!(!italicized.font[0].bold);
}

#[test]
fn fallback_list_appends_emoji_font() {
    let style = TextStyle::default();
    let list = style.font_with_fallback();
    assert_eq!(list.len(), 2);
    assert_eq!(list[0].family, "monospace");
    assert_eq!(list[1].family, "Noto Color Emoji");

    let empty = TextStyle { font: Vec::new(), foreground: None };
    let list = empty.font_with_fallback();
    assert_eq!(list.len(), 2);
    assert_eq!(list[0].family, "monospace");
}

#[test]
fn style_equality_is_by_content() {
    let a = TextStyle::default();
    let b = TextStyle::default();
    assert!(a.eq_style(&b));
    let c = a.make_bold();
    assert!(!a.eq_style(&c));
}
