use glyphgrid::cell::{Cell, CellAttributes, Intensity};
use glyphgrid::cellcluster::CellCluster;
use glyphgrid::line::Line;

fn attrs() -> CellAttributes {
    CellAttributes::default()
}

fn bold() -> CellAttributes {
    CellAttributes { intensity: Intensity::Bold, ..CellAttributes::default() }
}

#[test]
fn uniform_attributes_yield_one_cluster() {
    let line = Line::from_text("abc", attrs());
    let clusters = line.cluster();
    assert_eq!(clusters.len(), 1);
    assert_eq!(clusters[0].text, "abc");
    assert_eq!(clusters[0].byte_to_cell_idx, vec![0, 1, 2]);
}

#[test]
fn alternating_attributes_yield_one_cluster_per_cell() {
    let cells = vec![
        Cell::new('a', attrs()),
        Cell::new('b', bold()),
        Cell::new('c', attrs()),
        Cell::new('d', bold()),
    ];
    let visible = vec![0, 1, 2, 3];
    let clusters = CellCluster::make_cluster(&cells, &visible);
    assert_eq!(clusters.len(), 4);
    for (i, text) in ["a", "b", "c", "d"].iter().enumerate() {
        assert_eq!(clusters[i].text, *text);
        assert_eq!(clusters[i].byte_to_cell_idx, vec![i]);
    }
}

#[test]
fn attribute_runs_split_clusters() {
    let cells = vec![
        Cell::new('a', attrs()),
        Cell::new('b', attrs()),
        Cell::new('c', bold()),
    ];
    let visible = vec![0, 1, 2];
    let clusters = CellCluster::make_cluster(&cells, &visible);
    assert_eq!(clusters.len(), 2);
    assert_eq!(clusters[0].text, "ab");
    assert_eq!(clusters[0].byte_to_cell_idx, vec![0, 1]);
    assert_eq!(clusters[1].text, "c");
    assert_eq!(clusters[1].byte_to_cell_idx, vec![2]);
}

#[test]
fn byte_table_counts_multibyte_text() {
    // One entry per byte: '日' is three bytes, and its placeholder cell is
    // skipped, so the following cell has index 2.
    let line = Line::from_text("日x", attrs());
    let clusters = line.cluster();
    assert_eq!(clusters.len(), 1);
    assert_eq!(clusters[0].text, "日x");
    assert_eq!(clusters[0].byte_to_cell_idx, vec![0, 0, 0, 2]);
}
