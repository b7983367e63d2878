use glyphgrid::cell::{grapheme_column_width, Cell, CellAttributes, Intensity, Underline, Blink};
use glyphgrid::line::Line;

fn attrs() -> CellAttributes {
    CellAttributes::default()
}

#[test]
fn widths_of_ordinary_and_wide_text() {
    assert_eq!(grapheme_column_width("a"), 1);
    assert_eq!(grapheme_column_width("日"), 2);
    assert_eq!(grapheme_column_width(" "), 1);
}

#[test]
fn emoji_modifier_forces_width_two() {
    // A thumbs-up is an emoji-modifier base, so the override applies even
    // before a skin-tone modifier is attached.
    assert_eq!(grapheme_column_width("\u{1F44D}"), 2);
    assert_eq!(grapheme_column_width("\u{1F44D}\u{1F3FD}"), 2);
}

#[test]
fn control_text_normalizes_to_space() {
    let c = Cell::new('\t', attrs());
    assert_eq!(c.str(), " ");
    let c = Cell::new_grapheme("\r\n", attrs());
    assert_eq!(c.str(), " ");
    let c = Cell::new_grapheme("ab", attrs());
    assert_eq!(c.str(), "ab");
}

#[test]
fn wide_grapheme_emits_placeholder() {
    let line = Line::from_text("a日b", attrs());
    // 'a' + '日' + its placeholder + 'b'
    assert_eq!(line.len(), 4);
    let vis = line.visible_cells();
    assert_eq!(vis, vec![0, 1, 3]);
}

#[test]
fn column_accounting_concrete() {
    // The widths of the visible cells sum to the total number of cells.
    let line = Line::from_text("日本語x", attrs());
    assert_eq!(line.len(), 7);
    let vis = line.visible_cells();
    assert_eq!(vis, vec![0, 2, 4, 6]);
    let cells = line.cells();
    let total: usize = vis.iter().map(|&i| cells[i].width()).sum();
    assert_eq!(total, line.len());
}

#[test]
fn empty_text_yields_no_cells() {
    let line = Line::from_text("", attrs());
    assert_eq!(line.len(), 0);
    assert_eq!(line.visible_cells().len(), 0);
    assert_eq!(line.cluster().len(), 0);
}

#[test]
fn attribute_flags_into_bool() {
    assert!(Intensity::Bold.into_bool());
    assert!(!Intensity::Normal.into_bool());
    assert!(!Intensity::Half.into_bool());
    assert!(Underline::Single.into_bool());
    assert!(Underline::Double.into_bool());
    assert!(!Underline::Off.into_bool());
    assert!(Blink::Slow.into_bool());
    assert!(!Blink::Off.into_bool());
}
