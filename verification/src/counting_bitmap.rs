//! A stack of `N` bitmaps forming a saturating per-id counter.
//!
//! `or(x)` raises the counter of every id in `x` by one (up to `N`).  The
//! structure keeps the cumulative form: after any sequence of calls, layer
//! `j` holds exactly the ids that appeared in at least `j + 1` calls.
//! `top_k` then answers "the highest layer still holding at least `search_k`
//! candidates".

use vstd::prelude::*;

use crate::result::spec_min;

use crate::bitmaps::bounded_id_set;
use crate::bitmaps::Bitmap;

verus! {

/// How many of the sets in `h` contain `id`.
pub open spec fn spec_hits(h: Seq<Set<u64>>, id: u64) -> nat
    decreases h.len(),
{
    if h.len() == 0 {
        0
    } else {
        spec_hits(h.drop_last(), id) + if h.last().contains(id) {
            1nat
        } else {
            0nat
        }
    }
}

/// The largest index of a set in `layers` with at least `k` elements.
pub open spec fn spec_top_layer(layers: Seq<Set<u64>>, k: nat) -> Option<int>
    decreases layers.len(),
{
    if layers.len() == 0 {
        None
    } else if layers.last().len() >= k {
        Some(layers.len() - 1)
    } else {
        spec_top_layer(layers.drop_last(), k)
    }
}

/// A selected top layer index is always in range, its layer reaches `k`,
/// and no higher layer does.
pub proof fn lemma_top_layer_range(layers: Seq<Set<u64>>, k: nat)
    ensures
        spec_top_layer(layers, k) matches Some(j) ==> 0 <= j < layers.len() && layers[j].len() >= k
            && (forall|j2: int| j < j2 < layers.len() ==> (#[trigger] layers[j2]).len() < k),
        spec_top_layer(layers, k) is None ==> forall|j2: int|
            0 <= j2 < layers.len() ==> (#[trigger] layers[j2]).len() < k,
    decreases layers.len(),
{
    if layers.len() > 0 {
        lemma_top_layer_range(layers.drop_last(), k);
        assert forall|j2: int| 0 <= j2 < layers.len() - 1 implies layers.drop_last()[j2]
            == layers[j2] by {}
    }
}

/// An `N`-level saturating counter over ids, stored as `N` bitmaps.
pub struct CountingBitmap<B: Bitmap> {
    bitmaps: Vec<B>,
    history: Ghost<Seq<Set<u64>>>,
}

impl<B: Bitmap> CountingBitmap<B> {
    /// The number of layers.
    pub closed spec fn depth(&self) -> nat {
        self.bitmaps@.len()
    }

    /// The sequence of id sets each `or` call contributed, oldest first.
    pub closed spec fn history(&self) -> Seq<Set<u64>> {
        self.history@
    }

    /// The id set of layer `j`.
    pub closed spec fn layer(&self, j: int) -> Set<u64> {
        self.bitmaps@[j].elems()
    }

    /// All layers' id sets, lowest first.
    pub closed spec fn layers(&self) -> Seq<Set<u64>> {
        Seq::new(self.depth(), |j: int| self.layer(j))
    }

    /// Well-formedness: each layer is a bounded id set, and layer `j` holds
    /// exactly the ids contained in at least `j + 1` of the contributed sets.
    pub closed spec fn inv(&self) -> bool {
        &&& forall|j: int|
            0 <= j < self.depth() ==> bounded_id_set(#[trigger] self.bitmaps@[j].elems())
        &&& forall|j: int, id: u64|
            0 <= j < self.depth() ==> (#[trigger] self.bitmaps@[j].elems().contains(id)
                <==> spec_hits(self.history@, id) >= j + 1)
    }

    /// An empty counter of the given depth.
    pub fn new(size: usize) -> (r: Self)
        ensures
            r.inv(),
            r.depth() == size,
            r.history() == Seq::<Set<u64>>::empty(),
    {
        let mut bitmaps: Vec<B> = Vec::new();
        while bitmaps.len() < size
            invariant
                bitmaps@.len() <= size,
                forall|j: int|
                    0 <= j < bitmaps@.len() ==> #[trigger] bitmaps@[j].elems()
                        == Set::<u64>::empty(),
            decreases size - bitmaps@.len(),
        {
            bitmaps.push(B::new());
        }
        CountingBitmap { bitmaps, history: Ghost(Seq::empty()) }
    }

    /// Raises the counter of every id in `rhs` by one, saturating at the
    /// depth.  The cascade xors the carry into a layer, keeps as carry the
    /// ids the layer already counted, and ors those back in, so every layer
    /// stays cumulative.
    pub fn or(&mut self, rhs: B)
        requires
            old(self).inv(),
            bounded_id_set(rhs.elems()),
        ensures
            final(self).inv(),
            final(self).depth() == old(self).depth(),
            final(self).history() == old(self).history().push(rhs.elems()),
    {
        let ghost oldh = self.history@;
        let ghost x = rhs.elems();
        self.history = Ghost(oldh.push(x));
        proof {
            assert(oldh.push(x).drop_last() =~= oldh);
        }
        let mut cur = rhs;
        let n = self.bitmaps.len();
        let mut i: usize = 0;
        while i < n
            invariant_except_break
                i <= n,
                n == self.bitmaps@.len(),
                self.history@ == oldh.push(x),
                oldh.push(x).drop_last() == oldh,
                oldh.push(x).last() == x,
                bounded_id_set(cur.elems()),
                forall|id: u64|
                    #[trigger] cur.elems().contains(id) <==> (x.contains(id) && spec_hits(
                        oldh,
                        id,
                    ) >= i),
                forall|j: int|
                    0 <= j < n ==> bounded_id_set(#[trigger] self.bitmaps@[j].elems()),
                forall|j: int, id: u64|
                    0 <= j < i ==> (#[trigger] self.bitmaps@[j].elems().contains(id)
                        <==> spec_hits(oldh.push(x), id) >= j + 1),
                forall|j: int, id: u64|
                    i <= j < n ==> (#[trigger] self.bitmaps@[j].elems().contains(id)
                        <==> spec_hits(oldh, id) >= j + 1),
            ensures
                n == self.bitmaps@.len(),
                self.history@ == oldh.push(x),
                forall|j: int|
                    0 <= j < n ==> bounded_id_set(#[trigger] self.bitmaps@[j].elems()),
                forall|j: int, id: u64|
                    0 <= j < n ==> (#[trigger] self.bitmaps@[j].elems().contains(id)
                        <==> spec_hits(oldh.push(x), id) >= j + 1),
            decreases n - i,
        {
            let ghost cur_before = cur.elems();
            let layer = &mut self.bitmaps[i];
            let ghost layer_before = layer.elems();
            layer.xor(&cur);
            cur.and_not(layer);
            layer.or(&cur);
            proof {
                // cur became cur_before without the xor result, which keeps
                // exactly the ids the layer already counted; the layer then
                // grew to the old layer united with the old carry.
                assert(forall|id: u64|
                    #[trigger] cur.elems().contains(id) <==> (cur_before.contains(id)
                        && layer_before.contains(id)));
                assert(forall|id: u64|
                    #[trigger] layer.elems().contains(id) <==> (layer_before.contains(id)
                        || cur_before.contains(id)));
            }
            let stop = cur.is_empty();
            i = i + 1;
            if stop {
                proof {
                    assert forall|j: int, id: u64| i <= j < n implies (
                        #[trigger] self.bitmaps@[j].elems().contains(id) <==> spec_hits(
                            oldh.push(x),
                            id,
                        ) >= j + 1) by {
                        if spec_hits(oldh.push(x), id) >= j + 1 {
                            if x.contains(id) {
                                assert(spec_hits(oldh, id) >= j);
                                assert(cur.elems().contains(id));
                            }
                        }
                    }
                }
                break;
            }
        }
    }

    /// The number of ids each layer currently holds, lowest layer first.
    pub fn cardinalities(&self) -> (r: Vec<u64>)
        requires
            self.inv(),
        ensures
            r@.len() == self.depth(),
            forall|j: int| 0 <= j < self.depth() ==> r@[j] == self.layer(j).len(),
    {
        let mut out: Vec<u64> = Vec::new();
        let n = self.bitmaps.len();
        let mut i: usize = 0;
        while i < n
            invariant
                self.inv(),
                i <= n,
                n == self.bitmaps@.len(),
                out@.len() == i,
                forall|j: int| 0 <= j < i ==> out@[j] == self.layer(j).len(),
            decreases n - i,
        {
            out.push(self.bitmaps[i].count());
            i = i + 1;
        }
        out
    }

    /// The highest layer holding at least `search_k` ids, if any.
    pub fn top_k(&self, search_k: usize) -> (r: Option<&B>)
        requires
            self.inv(),
        ensures
            r is None <==> spec_top_layer(self.layers(), search_k as nat) is None,
            r matches Some(bm) ==> spec_top_layer(self.layers(), search_k as nat) matches Some(j)
                && bm.elems() == self.layers()[j],
    {
        let n = self.bitmaps.len();
        let mut i: usize = n;
        proof {
            assert(self.layers().take(n as int) =~= self.layers());
        }
        while i > 0
            invariant_except_break
                self.inv(),
                i <= n,
                n == self.bitmaps@.len(),
                spec_top_layer(self.layers().take(i as int), search_k as nat) == spec_top_layer(
                    self.layers(),
                    search_k as nat,
                ),
            ensures
                i == 0,
                spec_top_layer(self.layers().take(i as int), search_k as nat) == spec_top_layer(
                    self.layers(),
                    search_k as nat,
                ),
            decreases i,
        {
            i = i - 1;
            proof {
                assert(self.layers().take(i as int + 1).drop_last() =~= self.layers().take(
                    i as int,
                ));
                assert(self.layers().take(i as int + 1).last() == self.layer(i as int));
            }
            if self.bitmaps[i].count() >= search_k as u64 {
                return Some(&self.bitmaps[i]);
            }
        }
        proof {
            assert(self.layers().take(0) =~= Seq::<Set<u64>>::empty());
        }
        None
    }
}

/// The counting-bitmap law: in a well-formed counter, the layers line up
/// with the contributed history — layer `j` holds an id exactly when at
/// least `j + 1` of the contributed sets held it, so the highest layer
/// holding an id is `min(depth, hits) - 1`.
pub proof fn lemma_counting_semantics<B: Bitmap>(c: &CountingBitmap<B>)
    requires
        c.inv(),
    ensures
        c.layers().len() == c.depth(),
        forall|j: int| 0 <= j < c.depth() ==> bounded_id_set(#[trigger] c.layers()[j]),
        forall|j: int, id: u64|
            0 <= j < c.depth() ==> (#[trigger] c.layers()[j].contains(id) <==> spec_hits(
                c.history(),
                id,
            ) >= j + 1),
{
}

/// The two views of the stack agree: `layers()` is exactly the per-index
/// sequence of `layer(j)`, so facts stated over either carry to the other.
pub proof fn lemma_layers_index<B: Bitmap>(c: &CountingBitmap<B>)
    ensures
        c.layers().len() == c.depth(),
        forall|j: int| 0 <= j < c.depth() ==> #[trigger] c.layers()[j] == c.layer(j),
{
}

/// The saturating-counter law, per id: an id contained in at least one
/// contributed set stands in layers `0` up to `min(depth, hits) - 1` and in
/// no higher layer — the highest layer holding it is exactly
/// `min(depth, hits) - 1`.
pub proof fn lemma_saturating_count<B: Bitmap>(c: &CountingBitmap<B>, id: u64)
    requires
        c.inv(),
        c.depth() >= 1,
        spec_hits(c.history(), id) >= 1,
    ensures
        ({
            let top = spec_min(c.depth() as int, spec_hits(c.history(), id) as int) - 1;
            &&& c.layers()[top].contains(id)
            &&& forall|j: int| top < j < c.depth() ==> !(#[trigger] c.layers()[j]).contains(id)
        }),
{
    lemma_counting_semantics(c);
}

} // verus!
