//! A line of styled text as a row of fixed-width cells: segmentation into
//! graphemes, placeholder cells after wide graphemes, the visible-cell walk
//! that skips them, and clustering for shaping.

use crate::cell::{spec_grapheme_width, spec_normalize, Cell, CellAttributes, CellView};
use crate::cellcluster::{spec_clusters, spec_vis_pairs, CellCluster};
use crate::unicode::{graphemes_of, split_graphemes};
use vstd::prelude::*;

verus! {

/// A placeholder cell: one blank space.
pub open spec fn spec_blank_cell(attrs: CellAttributes) -> CellView {
    CellView { text: seq![' '], attrs }
}

/// How many following cells a visible cell of width `w` hides.
pub open spec fn spec_skip_of(w: nat) -> int {
    if w >= 1 {
        w - 1
    } else {
        0
    }
}

/// The cells emitted for one grapheme: the grapheme's cell followed by
/// `width - 1` blank placeholder cells.
pub open spec fn spec_cells_of_grapheme(g: Seq<char>, attrs: CellAttributes) -> Seq<CellView> {
    let t = spec_normalize(g);
    let w = spec_grapheme_width(t);
    seq![CellView { text: t, attrs }] + Seq::new(
        spec_skip_of(w) as nat,
        |i: int| spec_blank_cell(attrs),
    )
}

/// The cells emitted for a sequence of graphemes, in order.
pub open spec fn spec_cells_from(gs: Seq<Seq<char>>, attrs: CellAttributes) -> Seq<CellView>
    decreases gs.len(),
{
    if gs.len() == 0 {
        Seq::empty()
    } else {
        spec_cells_of_grapheme(gs[0], attrs) + spec_cells_from(gs.drop_first(), attrs)
    }
}

/// Appending one grapheme appends its block of cells.
pub proof fn lemma_cells_from_snoc(gs: Seq<Seq<char>>, g: Seq<char>, attrs: CellAttributes)
    ensures
        spec_cells_from(gs.push(g), attrs) == spec_cells_from(gs, attrs) + spec_cells_of_grapheme(
            g,
            attrs,
        ),
    decreases gs.len(),
{
    if gs.len() == 0 {
        assert(gs.push(g)[0] == g);
        assert(gs.push(g).drop_first() =~= Seq::<Seq<char>>::empty());
        assert(spec_cells_from(gs, attrs) == Seq::<CellView>::empty());
        assert(spec_cells_from(gs.push(g).drop_first(), attrs) == Seq::<CellView>::empty());
        assert(spec_cells_from(gs.push(g), attrs) == spec_cells_of_grapheme(gs.push(g)[0], attrs)
            + spec_cells_from(gs.push(g).drop_first(), attrs));
        assert(spec_cells_of_grapheme(gs.push(g)[0], attrs) == spec_cells_of_grapheme(g, attrs));
        assert(spec_cells_from(gs.push(g), attrs) =~~= spec_cells_from(gs, attrs)
            + spec_cells_of_grapheme(g, attrs));
    } else {
        assert(gs.push(g)[0] == gs[0]);
        assert(gs.push(g).drop_first() =~= gs.drop_first().push(g));
        lemma_cells_from_snoc(gs.drop_first(), g, attrs);
        assert(spec_cells_from(gs.push(g), attrs) =~~= spec_cells_from(gs, attrs)
            + spec_cells_of_grapheme(g, attrs));
    }
}

/// Segments text into grapheme cells with the given attributes, emitting
/// `width - 1` blank placeholder cells after each grapheme.
pub fn cells_from_text(text: &str, attrs: CellAttributes) -> (r: Vec<Cell>)
    ensures
        r.deep_view() == spec_cells_from(graphemes_of(text@), attrs),
{
    let gs = split_graphemes(text);
    let n: usize = gs.len();
    let mut cells: Vec<Cell> = Vec::new();
    let mut gi: usize = 0;
    while gi < n
        invariant
            gi <= n,
            n == gs.deep_view().len(),
            gs.deep_view() == graphemes_of(text@),
            cells.deep_view() == spec_cells_from(gs.deep_view().take(gi as int), attrs),
        decreases n - gi,
    {
        let ghost gv = gs.deep_view()[gi as int];
        let cell = Cell::new_grapheme(gs[gi].as_str(), attrs);
        let width = cell.width();
        proof {
            assert(cell@.text == spec_normalize(gv));
        }
        let ghost before = cells.deep_view();
        cells.push(cell);
        let mut j: usize = 1;
        while j < width
            invariant
                1 <= j,
                width as nat == spec_grapheme_width(spec_normalize(gv)),
                j <= width || (width == 0 && j == 1),
                cells.deep_view() == before + seq![
                    CellView { text: spec_normalize(gv), attrs },
                ] + Seq::new((j - 1) as nat, |i: int| spec_blank_cell(attrs)),
            decreases width - j,
        {
            let blank = Cell::new(' ', attrs);
            proof {
                assert(!crate::cell::spec_is_control(seq![' '][0]));
                assert(blank@.text =~= seq![' ']);
            }
            let ghost prevd = cells.deep_view();
            let ghost bv = blank.deep_view();
            cells.push(blank);
            proof {
                assert(bv =~~= spec_blank_cell(attrs));
                assert(cells.deep_view() =~= prevd.push(bv));
                assert(prevd.push(bv) =~= before + seq![
                    CellView { text: spec_normalize(gv), attrs },
                ] + Seq::new(j as nat, |i: int| spec_blank_cell(attrs)));
            }
            j = j + 1;
        }
        proof {
            lemma_cells_from_snoc(gs.deep_view().take(gi as int), gv, attrs);
            assert(gs.deep_view().take(gi as int).push(gv) =~= gs.deep_view().take(gi + 1));
            assert(Seq::new((j - 1) as nat, |i: int| spec_blank_cell(attrs)) =~= Seq::new(
                spec_skip_of(spec_grapheme_width(spec_normalize(gv))) as nat,
                |i: int| spec_blank_cell(attrs),
            ));
            assert(cells.deep_view() =~= spec_cells_from(gs.deep_view().take(gi + 1), attrs));
        }
        gi = gi + 1;
    }
    proof {
        assert(gs.deep_view().take(n as int) =~= gs.deep_view());
    }
    cells
}

/// The indices of the visible cells of `cells`, walking from `i` with
/// `skip` placeholder cells still to swallow: a visible cell of width `w`
/// hides the `w - 1` cells after it.
pub open spec fn spec_visible_rec(cells: Seq<CellView>, i: int, skip: int) -> Seq<int>
    decreases cells.len() - i,
{
    if i < 0 || i >= cells.len() {
        Seq::empty()
    } else if skip > 0 {
        spec_visible_rec(cells, i + 1, skip - 1)
    } else {
        seq![i] + spec_visible_rec(cells, i + 1, spec_skip_of(spec_grapheme_width(cells[i].text)))
    }
}

/// The indices of the visible cells, placeholders skipped.
pub open spec fn spec_visible_indices(cells: Seq<CellView>) -> Seq<int> {
    spec_visible_rec(cells, 0, 0)
}

/// Every visible index lies between the walk's start and the end of the
/// cells.
pub proof fn lemma_visible_in_range(cells: Seq<CellView>, i: int, skip: int)
    ensures
        forall|k: int|
            0 <= k < spec_visible_rec(cells, i, skip).len() ==> i <= #[trigger] spec_visible_rec(
                cells,
                i,
                skip,
            )[k] < cells.len(),
    decreases cells.len() - i,
{
    let rec = spec_visible_rec(cells, i, skip);
    if i < 0 || i >= cells.len() {
    } else if skip > 0 {
        lemma_visible_in_range(cells, i + 1, skip - 1);
        let tail = spec_visible_rec(cells, i + 1, skip - 1);
        assert forall|k: int| 0 <= k < rec.len() implies i <= #[trigger] rec[k] < cells.len() by {
            assert(rec[k] == tail[k]);
        }
    } else {
        let s2 = spec_skip_of(spec_grapheme_width(cells[i].text));
        lemma_visible_in_range(cells, i + 1, s2);
        let tail = spec_visible_rec(cells, i + 1, s2);
        assert forall|k: int| 0 <= k < rec.len() implies i <= #[trigger] rec[k] < cells.len() by {
            if k == 0 {
                assert(rec[0] == i);
            } else {
                assert(rec[k] == tail[k - 1]);
            }
        }
    }
}

/// An element is in a concatenation exactly when it is in one of the parts.
pub proof fn lemma_concat_contains(a: Seq<int>, b: Seq<int>, x: int)
    ensures
        (a + b).contains(x) <==> a.contains(x) || b.contains(x),
{
    if a.contains(x) {
        let i = choose|i: int| 0 <= i < a.len() && a[i] == x;
        assert((a + b)[i] == x);
    }
    if b.contains(x) {
        let i = choose|i: int| 0 <= i < b.len() && b[i] == x;
        assert((a + b)[a.len() + i] == x);
    }
    if (a + b).contains(x) {
        let i = choose|i: int| 0 <= i < (a + b).len() && (a + b)[i] == x;
        if i < a.len() {
            assert(a[i] == x);
        } else {
            assert(b[i - a.len()] == x);
        }
    }
}

/// Shifting every element moves membership by the same offset.
pub proof fn lemma_shift_contains(s: Seq<int>, p: int, x: int)
    ensures
        s.map_values(|v: int| v + p).contains(x) <==> s.contains(x - p),
{
    if s.contains(x - p) {
        let i = choose|i: int| 0 <= i < s.len() && s[i] == x - p;
        assert(s.map_values(|v: int| v + p)[i] == x);
    }
    if s.map_values(|v: int| v + p).contains(x) {
        let m = s.map_values(|v: int| v + p);
        let i = choose|i: int| 0 <= i < m.len() && m[i] == x;
        assert(s[i] == x - p);
    }
}

/// Walking the tail of a concatenation from the boundary sees only the
/// second part, with every index shifted by the first part's length.
pub proof fn lemma_visible_shift(xs: Seq<CellView>, ys: Seq<CellView>, j: int, skip: int)
    requires
        0 <= j,
    ensures
        spec_visible_rec(xs + ys, xs.len() + j, skip) == spec_visible_rec(
            ys,
            j,
            skip,
        ).map_values(|v: int| v + xs.len()),
    decreases (if j < ys.len() {
        ys.len() - j
    } else {
        0
    }),
{
    let p = xs.len() as int;
    if j >= ys.len() {
        assert(spec_visible_rec(xs + ys, p + j, skip) =~= Seq::<int>::empty());
        assert(spec_visible_rec(ys, j, skip) =~= Seq::<int>::empty());
        assert(spec_visible_rec(ys, j, skip).map_values(|v: int| v + p) =~= Seq::<int>::empty());
    } else if skip > 0 {
        lemma_visible_shift(xs, ys, j + 1, skip - 1);
    } else {
        assert((xs + ys)[p + j] == ys[j]);
        let s2 = spec_skip_of(spec_grapheme_width(ys[j].text));
        lemma_visible_shift(xs, ys, j + 1, s2);
        assert(spec_visible_rec(xs + ys, p + j, skip) =~= (seq![j] + spec_visible_rec(
            ys,
            j + 1,
            s2,
        )).map_values(|v: int| v + p));
    }
}

/// The total display width of the cells that `vis` indexes.
pub open spec fn spec_width_sum(cells: Seq<CellView>, vis: Seq<int>) -> int
    decreases vis.len(),
{
    if vis.len() == 0 {
        0
    } else {
        spec_grapheme_width(cells[vis[0]].text) + spec_width_sum(cells, vis.drop_first())
    }
}

/// Summing widths over shifted indices into a concatenation sums them over
/// the second part.
pub proof fn lemma_width_sum_shift(xs: Seq<CellView>, ys: Seq<CellView>, vis: Seq<int>)
    requires
        forall|k: int| 0 <= k < vis.len() ==> 0 <= #[trigger] vis[k] < ys.len(),
    ensures
        spec_width_sum(xs + ys, vis.map_values(|v: int| v + xs.len())) == spec_width_sum(ys, vis),
    decreases vis.len(),
{
    let p = xs.len() as int;
    let m = vis.map_values(|v: int| v + p);
    if vis.len() == 0 {
    } else {
        assert((xs + ys)[m[0]] == ys[vis[0]]);
        assert(m.drop_first() =~= vis.drop_first().map_values(|v: int| v + p));
        lemma_width_sum_shift(xs, ys, vis.drop_first());
    }
}

/// Column accounting for a cell row built from graphemes whose widths are
/// one or two: the widths of the visible cells sum to the total number of
/// cells, and every placeholder cell directly follows a visible cell of
/// width two.
pub proof fn lemma_placeholder_accounting(gs: Seq<Seq<char>>, attrs: CellAttributes)
    requires
        forall|i: int|
            0 <= i < gs.len() ==> 1 <= spec_grapheme_width(spec_normalize(#[trigger] gs[i])) <= 2,
    ensures
        ({
            let cells = spec_cells_from(gs, attrs);
            let vis = spec_visible_indices(cells);
            &&& spec_width_sum(cells, vis) == cells.len()
            &&& forall|k: int|
                0 <= k < cells.len() && !(#[trigger] vis.contains(k)) ==> vis.contains(k - 1)
                    && spec_grapheme_width(cells[k - 1].text) == 2
        }),
    decreases gs.len(),
{
    let cells = spec_cells_from(gs, attrs);
    let vis = spec_visible_indices(cells);
    if gs.len() == 0 {
        assert(cells =~= Seq::<CellView>::empty());
        assert(vis =~= Seq::<int>::empty());
    } else {
        let g = gs[0];
        let blk = spec_cells_of_grapheme(g, attrs);
        let rest = gs.drop_first();
        let rcells = spec_cells_from(rest, attrs);
        let rvis = spec_visible_indices(rcells);
        let w = spec_grapheme_width(spec_normalize(g)) as int;
        assert(1 <= w <= 2);
        assert(blk.len() == w);
        assert(forall|i: int|
            0 <= i < rest.len() ==> 1 <= spec_grapheme_width(spec_normalize(#[trigger] rest[i]))
                <= 2);
        lemma_placeholder_accounting(rest, attrs);
        lemma_visible_in_range(rcells, 0, 0);

        assert(cells == blk + rcells);
        assert(cells[0] == blk[0]);
        let shifted = rvis.map_values(|v: int| v + w);
        // The walk visits the grapheme cell, swallows its placeholders, and
        // continues at the boundary of the rest.
        assert(vis == seq![0] + shifted) by {
            assert(blk.len() == w);
            if w == 1 {
                lemma_visible_shift(blk, rcells, 0, 0);
                assert(spec_visible_rec(cells, 1, 0) == rvis.map_values(|v: int| v + 1));
                assert(vis =~= seq![0] + spec_visible_rec(cells, 1, 0));
            } else {
                lemma_visible_shift(blk, rcells, 0, 0);
                assert(spec_visible_rec(cells, 2, 0) == rvis.map_values(|v: int| v + 2));
                assert(spec_visible_rec(cells, 1, 1) == spec_visible_rec(cells, 2, 0));
                assert(vis =~= seq![0] + spec_visible_rec(cells, 1, 1));
            }
            assert(rvis.map_values(|v: int| v + w) =~= shifted);
        }

        // Width accounting.
        assert(spec_width_sum(cells, vis) == cells.len()) by {
            assert(vis[0] == 0);
            assert(vis.drop_first() =~= shifted);
            assert(spec_width_sum(cells, vis) == w + spec_width_sum(cells, shifted));
            lemma_width_sum_shift(blk, rcells, rvis);
            assert(spec_width_sum(cells, shifted) == spec_width_sum(rcells, rvis));
        }

        // Placeholder accounting.
        assert forall|k: int|
            0 <= k < cells.len() && !(#[trigger] vis.contains(k)) implies vis.contains(k - 1)
            && spec_grapheme_width(cells[k - 1].text) == 2 by {
            lemma_concat_contains(seq![0], shifted, k);
            lemma_shift_contains(rvis, w, k);
            assert(!(k == 0));
            if k < w {
                // The placeholder inside this grapheme's block.
                assert(k == 1 && w == 2);
                lemma_concat_contains(seq![0], shifted, 0);
                lemma_shift_contains(rvis, w, 0);
                assert(vis.contains(0));
                assert(spec_grapheme_width(cells[0].text) == 2);
            } else {
                // A placeholder of the rest, shifted by this block.
                assert(!rvis.contains(k - w));
                assert(0 <= k - w < rcells.len());
                assert(rvis.contains(k - w - 1));
                assert(spec_grapheme_width(rcells[k - w - 1].text) == 2);
                lemma_concat_contains(seq![0], shifted, k - 1);
                lemma_shift_contains(rvis, w, k - 1);
                assert(vis.contains(k - 1));
                assert(cells[k - 1] == rcells[k - w - 1]);
            }
        }
    }
}

/// A row of cells.
#[derive(Debug, Clone)]
pub struct Line {
    cells: Vec<Cell>,
}

impl View for Line {
    type V = Seq<CellView>;

    closed spec fn view(&self) -> Seq<CellView> {
        self.cells.deep_view()
    }
}

impl Line {
    /// Builds the cell row for a text: one cell per grapheme plus its
    /// placeholders.
    pub fn from_text(s: &str, attrs: CellAttributes) -> (r: Line)
        ensures
            r@ == spec_cells_from(graphemes_of(s@), attrs),
    {
        Line { cells: cells_from_text(s, attrs) }
    }

    /// The number of cells, placeholders included.
    pub fn len(&self) -> (r: usize)
        ensures
            r == self@.len(),
    {
        self.cells.len()
    }

    /// The cells themselves.
    pub fn cells(&self) -> (r: &Vec<Cell>)
        ensures
            r.deep_view() == self@,
    {
        &self.cells
    }

    /// The indices of the visible cells, in order; placeholder cells that
    /// follow a wide cell are skipped.
    pub fn visible_cells(&self) -> (r: Vec<usize>)
        ensures
            r@.map_values(|u: usize| u as int) == spec_visible_indices(self@),
            forall|k: int| 0 <= k < r@.len() ==> #[trigger] r@[k] < self@.len(),
    {
        let n: usize = self.cells.len();
        let mut res: Vec<usize> = Vec::new();
        let mut skip: usize = 0;
        let mut i: usize = 0;
        while i < n
            invariant
                i <= n,
                n == self@.len(),
                self@ == self.cells.deep_view(),
                forall|k: int| 0 <= k < res@.len() ==> #[trigger] res@[k] < n,
                spec_visible_indices(self@) == res@.map_values(|u: usize| u as int)
                    + spec_visible_rec(self@, i as int, skip as int),
            decreases n - i,
        {
            if skip > 0 {
                skip = skip - 1;
            } else {
                let cell = &self.cells[i];
                let w = cell.width();
                proof {
                    assert(cell.deep_view() == self@[i as int]);
                    assert(res@.push(i).map_values(|u: usize| u as int) =~= res@.map_values(
                        |u: usize| u as int,
                    ).push(i as int));
                }
                res.push(i);
                skip = if w >= 1 {
                    w - 1
                } else {
                    0
                };
            }
            i = i + 1;
        }
        proof {
            assert(spec_visible_rec(self@, n as int, skip as int) =~= Seq::<int>::empty());
            assert(res@.map_values(|u: usize| u as int) =~= spec_visible_indices(self@));
        }
        res
    }

    /// The `(index, cell)` pairs that clustering runs over.
    pub open spec fn spec_line_pairs(cells: Seq<CellView>) -> Seq<(int, CellView)> {
        let vis = spec_visible_indices(cells);
        Seq::new(vis.len(), |k: int| (vis[k], cells[vis[k]]))
    }

    /// Groups this line's visible cells into clusters of identical
    /// attributes; an empty line yields no clusters.
    pub fn cluster(&self) -> (r: Vec<CellCluster>)
        ensures
            r.deep_view() == spec_clusters(Line::spec_line_pairs(self@)),
    {
        let visible = self.visible_cells();
        let r = CellCluster::make_cluster(&self.cells, &visible);
        proof {
            assert(spec_vis_pairs(self.cells.deep_view(), visible@) =~= Line::spec_line_pairs(
                self@,
            ));
        }
        r
    }
}

} // verus!
