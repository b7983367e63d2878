//! Clustering: maximal runs of visible cells with identical attributes,
//! concatenated into one text string plus a byte-offset to cell-index table,
//! the unit of work handed to shaping.

use crate::cell::{Cell, CellAttributes, CellView};
use vstd::prelude::*;
use vstd::string::{StringExecFns, StringSliceAdditionalSpecFns};
use vstd::utf8::encode_utf8;

verus! {

/// The number of UTF-8 bytes that encode a character sequence.
pub open spec fn spec_byte_len(s: Seq<char>) -> nat {
    encode_utf8(s).len()
}

/// The ghost value of a cluster.
#[verifier::ext_equal]
pub struct ClusterView {
    pub attrs: CellAttributes,
    pub text: Seq<char>,
    pub byte_to_cell_idx: Seq<int>,
}

/// A run of visible cells with identical attributes, as one shapable text.
/// `byte_to_cell_idx` maps each byte of `text` back to the index of the
/// cell it came from.
#[derive(Debug, Clone)]
pub struct CellCluster {
    pub attrs: CellAttributes,
    pub text: String,
    pub byte_to_cell_idx: Vec<usize>,
}

impl View for CellCluster {
    type V = ClusterView;

    open spec fn view(&self) -> ClusterView {
        ClusterView {
            attrs: self.attrs,
            text: self.text@,
            byte_to_cell_idx: self.byte_to_cell_idx@.map_values(|u: usize| u as int),
        }
    }
}

impl DeepView for CellCluster {
    type V = ClusterView;

    open spec fn deep_view(&self) -> ClusterView {
        self@
    }
}

/// The byte-index table entries contributed by one cell: its byte length,
/// all mapping to that cell's index.
pub open spec fn spec_idx_run(text: Seq<char>, cell_idx: int) -> Seq<int> {
    Seq::new(spec_byte_len(text), |i: int| cell_idx)
}

/// How one visible cell extends a cluster run.
pub open spec fn spec_cluster_extend(c: ClusterView, idx: int, cell: CellView) -> ClusterView {
    ClusterView {
        attrs: c.attrs,
        text: c.text + cell.text,
        byte_to_cell_idx: c.byte_to_cell_idx + spec_idx_run(cell.text, idx),
    }
}

/// A fresh cluster holding one visible cell.
pub open spec fn spec_cluster_single(idx: int, cell: CellView) -> ClusterView {
    ClusterView {
        attrs: cell.attrs,
        text: cell.text,
        byte_to_cell_idx: spec_idx_run(cell.text, idx),
    }
}

/// Grouping visible cells into clusters: scanning in order, a cell extends
/// the current cluster while its attributes match, and starts a new cluster
/// on any mismatch. Empty input yields no clusters.
pub open spec fn spec_clusters(vis: Seq<(int, CellView)>) -> Seq<ClusterView>
    decreases vis.len(),
{
    if vis.len() == 0 {
        Seq::empty()
    } else {
        let rest = spec_clusters(vis.drop_last());
        let (idx, cell) = vis.last();
        if rest.len() > 0 && rest.last().attrs == cell.attrs {
            rest.update(rest.len() - 1, spec_cluster_extend(rest.last(), idx, cell))
        } else {
            rest.push(spec_cluster_single(idx, cell))
        }
    }
}

/// The `(index, cell)` pairs that the visible-cell indices select.
pub open spec fn spec_vis_pairs(cells: Seq<CellView>, visible: Seq<usize>) -> Seq<(int, CellView)> {
    Seq::new(visible.len(), |k: int| (visible[k] as int, cells[visible[k] as int]))
}

impl CellCluster {
    /// A cluster holding one cell's text.
    pub fn new(text: &str, attrs: CellAttributes, cell_idx: usize) -> (r: CellCluster)
        ensures
            r@ == spec_cluster_single(cell_idx as int, CellView { text: text@, attrs }),
    {
        let byte_len: usize = text.as_bytes().len();
        proof {
            assert(byte_len == spec_byte_len(text@));
        }
        let mut idx: Vec<usize> = Vec::new();
        let mut i: usize = 0;
        while i < byte_len
            invariant
                i <= byte_len,
                idx@ == Seq::new(i as nat, |j: int| cell_idx),
            decreases byte_len - i,
        {
            idx.push(cell_idx);
            proof {
                assert(idx@ =~= Seq::new((i + 1) as nat, |j: int| cell_idx));
            }
            i = i + 1;
        }
        let r = CellCluster { attrs, text: text.to_owned(), byte_to_cell_idx: idx };
        proof {
            assert(r@.byte_to_cell_idx =~= spec_idx_run(text@, cell_idx as int));
            assert(r@ =~= spec_cluster_single(cell_idx as int, CellView { text: text@, attrs }));
        }
        r
    }

    /// Extends the cluster with one more cell's text.
    pub fn add(&mut self, text: &str, cell_idx: usize)
        ensures
            final(self)@ == spec_cluster_extend(
                old(self)@,
                cell_idx as int,
                CellView { text: text@, attrs: old(self)@.attrs },
            ),
    {
        let byte_len: usize = text.as_bytes().len();
        proof {
            assert(byte_len == spec_byte_len(text@));
        }
        let ghost orig = self.byte_to_cell_idx@;
        let mut i: usize = 0;
        while i < byte_len
            invariant
                i <= byte_len,
                self.byte_to_cell_idx@ == orig + Seq::new(i as nat, |j: int| cell_idx),
                self.attrs == old(self).attrs,
                self.text == old(self).text,
            decreases byte_len - i,
        {
            self.byte_to_cell_idx.push(cell_idx);
            proof {
                assert(self.byte_to_cell_idx@ =~= orig + Seq::new((i + 1) as nat, |j: int| cell_idx));
            }
            i = i + 1;
        }
        self.text.append(text);
        proof {
            assert(final(self)@.byte_to_cell_idx =~= old(self)@.byte_to_cell_idx + spec_idx_run(
                text@,
                cell_idx as int,
            ));
            assert(final(self)@ =~= spec_cluster_extend(
                old(self)@,
                cell_idx as int,
                CellView { text: text@, attrs: old(self)@.attrs },
            ));
        }
    }

    /// Groups the visible cells of a line, selected by `visible`, into
    /// maximal runs of identical attributes.
    pub fn make_cluster(cells: &Vec<Cell>, visible: &Vec<usize>) -> (r: Vec<CellCluster>)
        requires
            forall|k: int| 0 <= k < visible@.len() ==> #[trigger] visible@[k] < cells@.len(),
        ensures
            r.deep_view() == spec_clusters(spec_vis_pairs(cells.deep_view(), visible@)),
    {
        let ghost pairs = spec_vis_pairs(cells.deep_view(), visible@);
        let n: usize = visible.len();
        let mut out: Vec<CellCluster> = Vec::new();
        let mut k: usize = 0;
        while k < n
            invariant
                k <= n,
                n == visible@.len(),
                forall|kk: int| 0 <= kk < visible@.len() ==> #[trigger] visible@[kk] < cells@.len(),
                pairs == spec_vis_pairs(cells.deep_view(), visible@),
                pairs.len() == n,
                out.deep_view() == spec_clusters(pairs.take(k as int)),
            decreases n - k,
        {
            let idx = visible[k];
            let cell = &cells[idx];
            proof {
                assert(pairs.take(k + 1).drop_last() =~= pairs.take(k as int));
                assert(pairs.take(k + 1).last() == (idx as int, cell.deep_view()));
            }
            let extend_last = if out.len() > 0 {
                let last_ref = &out[out.len() - 1];
                last_ref.attrs == *cell.attrs()
            } else {
                false
            };
            if extend_last {
                let mut last = match out.pop() {
                    Some(l) => l,
                    None => {
                        proof {
                            assert(false);
                        }
                        CellCluster::new("", CellAttributes::default(), 0)
                    },
                };
                last.add(cell.str(), idx);
                out.push(last);
                proof {
                    assert(out.deep_view() =~~= spec_clusters(pairs.take(k + 1)));
                }
            } else {
                out.push(CellCluster::new(cell.str(), *cell.attrs(), idx));
                proof {
                    assert(out.deep_view() =~~= spec_clusters(pairs.take(k + 1)));
                }
            }
            k = k + 1;
        }
        proof {
            assert(pairs.take(n as int) =~= pairs);
        }
        out
    }
}

/// Cells that all share one attribute value coalesce into exactly one
/// cluster.
pub proof fn lemma_cluster_uniform(vis: Seq<(int, CellView)>, attrs: CellAttributes)
    requires
        vis.len() > 0,
        forall|k: int| 0 <= k < vis.len() ==> (#[trigger] vis[k]).1.attrs == attrs,
    ensures
        spec_clusters(vis).len() == 1,
        spec_clusters(vis)[0].attrs == attrs,
    decreases vis.len(),
{
    assert(vis.last() == vis[vis.len() - 1]);
    if vis.len() == 1 {
        assert(vis.drop_last().len() == 0);
        assert(spec_clusters(vis.drop_last()) =~= Seq::<ClusterView>::empty());
    } else {
        assert(forall|k: int|
            0 <= k < vis.drop_last().len() ==> (#[trigger] vis.drop_last()[k]).1.attrs == attrs);
        lemma_cluster_uniform(vis.drop_last(), attrs);
        let rest = spec_clusters(vis.drop_last());
        assert(rest.last() == rest[0]);
        assert(rest.last().attrs == vis.last().1.attrs);
    }
}

/// Cells whose attributes differ from each neighbour's yield one cluster
/// per cell.
#[verifier::rlimit(50)]
pub proof fn lemma_cluster_alternating(vis: Seq<(int, CellView)>)
    requires
        forall|k: int| 0 < k < vis.len() ==> (#[trigger] vis[k]).1.attrs != vis[k - 1].1.attrs,
    ensures
        spec_clusters(vis).len() == vis.len(),
        forall|k: int|
            0 <= k < vis.len() ==> (#[trigger] spec_clusters(vis)[k]).attrs == vis[k].1.attrs,
    decreases vis.len(),
{
    if vis.len() == 0 {
        assert(spec_clusters(vis) =~= Seq::<ClusterView>::empty());
    } else {
        let prefix = vis.drop_last();
        assert(forall|k: int|
            0 < k < prefix.len() ==> (#[trigger] prefix[k]).1.attrs != prefix[k - 1].1.attrs);
        lemma_cluster_alternating(prefix);
        let rest = spec_clusters(prefix);
        assert(vis.last() == vis[vis.len() - 1]);
        if vis.len() > 1 {
            assert(rest.last() == rest[prefix.len() - 1]);
            assert(rest.last().attrs == prefix[prefix.len() - 1].1.attrs);
            assert(prefix[prefix.len() - 1] == vis[vis.len() - 2]);
            assert(vis[vis.len() - 1].1.attrs != vis[vis.len() - 2].1.attrs);
            assert(spec_clusters(vis) == rest.push(
                spec_cluster_single(vis.last().0, vis.last().1),
            ));
        } else {
            assert(rest.len() == 0);
        }
        assert forall|k: int| 0 <= k < vis.len() implies (#[trigger] spec_clusters(vis)[k]).attrs
            == vis[k].1.attrs by {
            if k < vis.len() - 1 {
                assert(spec_clusters(vis)[k] == rest[k]);
                assert(prefix[k] == vis[k]);
            }
        }
    }
}

} // verus!
