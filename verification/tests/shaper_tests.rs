use glyphgrid::fallback::FallbackShaper;
use glyphgrid::shaper::{CharGlyph, FontInstance, MaybeShaped, ShaperError};

fn font(chars: &[(char, u32)]) -> FontInstance {
    let glyphs = chars
        .iter()
        .map(|&(ch, glyph_id)| CharGlyph { ch, glyph_id, x_advance: 64 * 10 })
        .collect();
    FontInstance::new(glyphs)
}

#[test]
fn partition_splits_covered_and_uncovered_runs() {
    let a = font(&[('a', 1), ('b', 2)]);
    let items = a.partition_text("ab日本b", 0);
    assert_eq!(items.len(), 4);
    match &items[0] {
        MaybeShaped::Resolved(g) => {
            assert_eq!(g.glyph_pos, 1);
            assert_eq!(g.cluster, 0);
        }
        other => panic!("expected a resolved run, got {:?}", other),
    }
    match &items[2] {
        MaybeShaped::Unresolved { raw, slice_start } => {
            assert_eq!(raw, "日本");
            assert_eq!(*slice_start, 2);
        }
        other => panic!("expected an unresolved run, got {:?}", other),
    }
    match &items[3] {
        MaybeShaped::Resolved(g) => {
            assert_eq!(g.glyph_pos, 2);
            assert_eq!(g.cluster, 8);
        }
        other => panic!("expected a resolved run, got {:?}", other),
    }
}

#[test]
fn fallback_example_resolves_across_fonts_in_order() {
    // Font A resolves "ab" but not the CJK character; font B resolves it.
    // "a日b" must come back as A:'a', B:'日', A:'b' at byte offsets 0, 1, 4.
    let a = font(&[('a', 1), ('b', 2)]);
    let b = font(&[('日', 77)]);
    let shaper = FallbackShaper::new(vec![Some(a), Some(b)]);
    let glyphs = shaper.shape("a日b").expect("everything resolves");
    assert_eq!(glyphs.len(), 3);
    assert_eq!(
        (glyphs[0].font_idx, glyphs[0].glyph_pos, glyphs[0].cluster),
        (0, 1, 0)
    );
    assert_eq!(
        (glyphs[1].font_idx, glyphs[1].glyph_pos, glyphs[1].cluster),
        (1, 77, 1)
    );
    assert_eq!(
        (glyphs[2].font_idx, glyphs[2].glyph_pos, glyphs[2].cluster),
        (0, 2, 4)
    );
    assert_eq!(glyphs[1].num_cells, 2);
}

#[test]
fn shaping_twice_is_byte_identical() {
    let a = font(&[('a', 1), ('b', 2), ('?', 9)]);
    let b = font(&[('日', 77)]);
    let shaper = FallbackShaper::new(vec![Some(a), Some(b)]);
    let first = shaper.shape("a日bzz").expect("resolves via placeholders");
    let second = shaper.shape("a日bzz").expect("resolves via placeholders");
    assert_eq!(first, second);
}

#[test]
fn failed_font_loads_are_skipped() {
    let b = font(&[('x', 5)]);
    let shaper = FallbackShaper::new(vec![None, Some(b)]);
    let glyphs = shaper.shape("x").expect("second font covers it");
    assert_eq!(glyphs.len(), 1);
    assert_eq!(glyphs[0].font_idx, 1);
    assert_eq!(glyphs[0].glyph_pos, 5);
}

#[test]
fn unresolved_text_substitutes_placeholders() {
    // 'X' resolves nowhere, so it is replaced by '?' and retried from the
    // first font, which covers '?'.
    let a = font(&[('a', 1), ('b', 2), ('?', 9)]);
    let shaper = FallbackShaper::new(vec![Some(a)]);
    let glyphs = shaper.shape("aXb").expect("placeholder retry succeeds");
    assert_eq!(glyphs.len(), 3);
    assert_eq!(glyphs[0].glyph_pos, 1);
    assert_eq!(glyphs[1].glyph_pos, 9);
    assert_eq!(glyphs[1].cluster, 1);
    assert_eq!(glyphs[2].glyph_pos, 2);
}

#[test]
fn placeholder_retry_failure_is_no_usable_fallback() {
    // The single font cannot shape 'X', and cannot shape '?' either: the
    // call must fail rather than loop.
    let a = font(&[('a', 1)]);
    let shaper = FallbackShaper::new(vec![Some(a)]);
    let r = shaper.shape("X");
    assert!(matches!(r, Err(ShaperError::NoUsableFallback)));
}

#[test]
fn empty_text_shapes_to_nothing() {
    let a = font(&[('a', 1)]);
    let shaper = FallbackShaper::new(vec![Some(a)]);
    let glyphs = shaper.shape("").expect("empty input is fine");
    assert_eq!(glyphs.len(), 0);
}

#[test]
fn output_preserves_text_order() {
    let a = font(&[('a', 1), ('?', 9)]);
    let b = font(&[('日', 7), ('本', 8)]);
    let shaper = FallbackShaper::new(vec![Some(a), Some(b)]);
    let glyphs = shaper.shape("a日a本a").expect("resolves");
    let clusters: Vec<usize> = glyphs.iter().map(|g| g.cluster).collect();
    let mut sorted = clusters.clone();
    sorted.sort();
    assert_eq!(clusters, sorted);
    assert_eq!(clusters, vec![0, 1, 4, 5, 8]);
}
