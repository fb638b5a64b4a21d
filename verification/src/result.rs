//! The fixed-capacity, descending-similarity result set.
//!
//! Similarities are total-order keys (see [`crate::keys`]); comparing two
//! keys with `<` compares the encoded floats.  The set keeps parallel
//! sequences of ids and similarity keys, in non-increasing similarity, with
//! duplicate ids suppressed and the length capped at `k`.

use vstd::prelude::*;

use crate::ID;

verus! {

/// One query answer: an id and its similarity as a total-order key.
#[derive(Clone, Copy, Debug, PartialEq, Eq, Structural)]
pub struct SearchResult {
    /// Similarity of the stored vector to the query, as an order key.
    pub similarity: u32,
    /// The stored vector's id.
    pub id: ID,
}

/// The first position in `sims` (non-increasing) whose entry is strictly
/// below `sim`, or the length if there is none: where a new entry of
/// similarity `sim` belongs.
pub open spec fn spec_insert_pos(sims: Seq<u32>, sim: u32) -> int
    decreases sims.len(),
{
    if sims.len() == 0 {
        0
    } else if sims[0] < sim {
        0
    } else {
        1 + spec_insert_pos(sims.drop_first(), sim)
    }
}

/// What one `add_result(id, sim)` call does to the parallel sequences of a
/// result set of capacity `k`: nothing when the set is full and the new
/// entry is below the weakest kept one, nothing when the id is already
/// present, and otherwise an ordered insertion truncated back to `k`.
pub open spec fn spec_add_result(
    sims: Seq<u32>,
    ids: Seq<u64>,
    k: nat,
    id: u64,
    sim: u32,
) -> (Seq<u32>, Seq<u64>) {
    if sims.len() == k && (k == 0 || sims.last() > sim) {
        (sims, ids)
    } else if ids.contains(id) {
        (sims, ids)
    } else {
        let p = spec_insert_pos(sims, sim);
        if sims.len() < k {
            (sims.insert(p, sim), ids.insert(p, id))
        } else {
            (sims.insert(p, sim).take(k as int), ids.insert(p, id).take(k as int))
        }
    }
}

proof fn lemma_insert_pos_char(sims: Seq<u32>, sim: u32, p: int)
    requires
        0 <= p <= sims.len(),
        forall|i: int| 0 <= i < p ==> sims[i] >= sim,
        p < sims.len() ==> sims[p] < sim,
    ensures
        spec_insert_pos(sims, sim) == p,
    decreases sims.len(),
{
    if sims.len() == 0 {
    } else if sims[0] < sim {
        assert(p == 0);
    } else {
        lemma_insert_pos_char(sims.drop_first(), sim, p - 1);
    }
}

proof fn lemma_insert_facts<T>(s: Seq<T>, p: int, v: T)
    requires
        0 <= p <= s.len(),
    ensures
        s.insert(p, v).len() == s.len() + 1,
        forall|i: int| 0 <= i < p ==> s.insert(p, v)[i] == s[i],
        s.insert(p, v)[p] == v,
        forall|i: int| p < i <= s.len() ==> s.insert(p, v)[i] == s[i - 1],
{
}

/// A capacity-`k` set of the most similar ids seen so far.
#[derive(Debug)]
pub struct ResultSet {
    sims: Vec<u32>,
    ids: Vec<ID>,
    k: usize,
    /// How many candidates were offered to the set in total.
    pub checked: usize,
}

impl ResultSet {
    /// The kept similarity keys, strongest first.
    pub closed spec fn sims(&self) -> Seq<u32> {
        self.sims@
    }

    /// The kept ids, most similar first.
    pub closed spec fn result_ids(&self) -> Seq<u64> {
        self.ids@
    }

    /// The capacity `k`.
    pub closed spec fn capacity(&self) -> nat {
        self.k as nat
    }

    /// The candidate counter, for contracts.
    pub closed spec fn spec_checked(&self) -> nat {
        self.checked as nat
    }

    /// Well-formedness: the sequences stay aligned and no longer than `k`,
    /// similarities never increase along the sequence, and ids are pairwise
    /// distinct.
    pub closed spec fn inv(&self) -> bool {
        &&& self.sims@.len() == self.ids@.len()
        &&& self.sims@.len() <= self.k
        &&& forall|i: int, j: int| 0 <= i <= j < self.sims@.len() ==> self.sims@[i] >= self.sims@[j]
        &&& forall|i: int, j: int| 0 <= i < j < self.ids@.len() ==> self.ids@[i] != self.ids@[j]
    }

    /// An empty result set of capacity `k`.
    pub fn new(k: usize) -> (r: Self)
        ensures
            r.inv(),
            r.capacity() == k,
            r.sims() == Seq::<u32>::empty(),
            r.result_ids() == Seq::<u64>::empty(),
            r.spec_checked() == 0,
    {
        ResultSet { sims: Vec::new(), ids: Vec::new(), k, checked: 0 }
    }

    /// The number of kept results.
    pub fn len(&self) -> (r: usize)
        ensures
            r == self.sims().len(),
    {
        self.sims.len()
    }

    /// Whether nothing has been kept.
    pub fn is_empty(&self) -> (r: bool)
        ensures
            r == (self.sims().len() == 0),
    {
        self.sims.is_empty()
    }

    /// Offers a candidate.  The update to the kept sequences is exactly
    /// [`spec_add_result`]; the candidate counter always advances.
    pub fn add_result(&mut self, id: ID, similarity: u32)
        requires
            old(self).inv(),
            old(self).spec_checked() < usize::MAX,
        ensures
            final(self).inv(),
            final(self).capacity() == old(self).capacity(),
            final(self).spec_checked() == old(self).spec_checked() + 1,
            (final(self).sims(), final(self).result_ids()) == spec_add_result(
                old(self).sims(),
                old(self).result_ids(),
                old(self).capacity(),
                id,
                similarity,
            ),
    {
        self.checked = self.checked + 1;
        let ghost osims = old(self).sims@;
        let ghost oids = old(self).ids@;
        let len = self.sims.len();
        if len == self.k {
            if self.k == 0 {
                return ;
            }
            if self.sims[len - 1] > similarity {
                return ;
            }
        }
        let mut dup: bool = false;
        let mut i: usize = 0;
        while i < len
            invariant
                i <= len,
                self.ids@ == oids,
                len == oids.len(),
                dup == exists|j: int| 0 <= j < i && oids[j] == id,
            decreases len - i,
        {
            if self.ids[i] == id {
                proof {
                    assert(oids[i as int] == id);
                }
                dup = true;
            }
            i = i + 1;
        }
        proof {
            assert(dup == oids.contains(id)) by {
                if dup {
                    let q = choose|q: int| 0 <= q < len && oids[q] == id;
                    assert(oids.contains(id));
                } else if oids.contains(id) {
                    let q = choose|q: int| 0 <= q < oids.len() && oids[q] == id;
                    assert(false);
                }
            }
        }
        if dup {
            return ;
        }
        let mut p: usize = 0;
        let mut past: bool = false;
        while !past && p < len
            invariant
                p <= len,
                old(self).inv(),
                self.k == old(self).k,
                self.sims@ == osims,
                self.ids@ == oids,
                self.checked == old(self).checked + 1,
                len == osims.len(),
                len == oids.len(),
                !oids.contains(id),
                !(len == self.k && (self.k == 0 || osims.last() > similarity)),
                forall|j: int| 0 <= j < p ==> osims[j] >= similarity,
                past ==> p < len && osims[p as int] < similarity,
            decreases len - p + if past { 0int } else { 1int },
        {
            if self.sims[p] < similarity {
                past = true;
            } else {
                p = p + 1;
            }
        }
        proof {
            lemma_insert_pos_char(osims, similarity, p as int);
            lemma_insert_facts(osims, p as int, similarity);
            lemma_insert_facts(oids, p as int, id);
        }
        let ghost isims = osims.insert(p as int, similarity);
        let ghost iids = oids.insert(p as int, id);
        proof {
            assert forall|a: int, b: int| 0 <= a <= b < isims.len() implies isims[a] >= isims[b] by {
                if a < p && b < p {
                } else if a == p || b == p {
                    if a < p {
                        assert(osims[a] >= similarity);
                    }
                    if b > p {
                        assert(osims[b - 1] < similarity);
                    }
                } else if a > p && b > p {
                    assert(isims[a] == osims[a - 1]);
                    assert(isims[b] == osims[b - 1]);
                }
            }
            assert forall|a: int, b: int| 0 <= a < b < iids.len() implies iids[a] != iids[b] by {
                if a == p {
                    assert(iids[b] == oids[b - 1]);
                } else if b == p {
                    assert(iids[a] == oids[a]);
                }
            }
        }
        if p == len {
            if len < self.k {
                self.sims.push(similarity);
                self.ids.push(id);
                proof {
                    assert(self.sims@ =~= isims);
                    assert(self.ids@ =~= iids);
                }
            } else {
                // Full, and the new entry ties the weakest kept one: the
                // ordered insertion lands past the end and truncation drops
                // it again.
                proof {
                    assert(isims.take(self.k as int) =~= osims);
                    assert(iids.take(self.k as int) =~= oids);
                }
            }
            return ;
        }
        self.sims.insert(p, similarity);
        self.ids.insert(p, id);
        if self.sims.len() > self.k {
            self.sims.pop();
            self.ids.pop();
            proof {
                assert(self.sims@ =~= isims.take(self.k as int));
                assert(self.ids@ =~= iids.take(self.k as int));
            }
        }
    }

    /// How many of the first `at` baseline ids also stand among this set's
    /// first `at` ids: the numerator of recall-at-`at`.
    pub fn compute_recall(&self, baseline: &ResultSet, at: usize) -> (r: usize)
        requires
            self.inv(),
        ensures
            r == spec_recall_count(
                baseline.result_ids().take(spec_min(at as int, baseline.result_ids().len() as int)),
                self.result_ids().take(spec_min(at as int, self.result_ids().len() as int)),
            ),
    {
        let bn = if at < baseline.ids.len() {
            at
        } else {
            baseline.ids.len()
        };
        let mn = if at < self.ids.len() {
            at
        } else {
            self.ids.len()
        };
        let ghost bseq = baseline.result_ids().take(bn as int);
        let ghost mseq = self.result_ids().take(mn as int);
        let mut found: usize = 0;
        let mut i: usize = 0;
        while i < bn
            invariant
                i <= bn,
                bn <= baseline.ids@.len(),
                mn <= self.ids@.len(),
                found <= i,
                bseq == baseline.result_ids().take(bn as int),
                mseq == self.result_ids().take(mn as int),
                found == spec_recall_count(bseq.take(i as int), mseq),
            decreases bn - i,
        {
            let x = baseline.ids[i];
            let mut hit: bool = false;
            let mut j: usize = 0;
            while j < mn
                invariant
                    j <= mn,
                    mn <= self.ids@.len(),
                    hit == exists|q: int| 0 <= q < j && self.ids@[q] == x,
                decreases mn - j,
            {
                if self.ids[j] == x {
                    proof {
                        assert(self.ids@[j as int] == x);
                    }
                    hit = true;
                }
                j = j + 1;
            }
            proof {
                assert(bseq.take(i as int + 1).drop_last() =~= bseq.take(i as int));
                assert(bseq.take(i as int + 1).last() == x);
                assert(hit == mseq.contains(x)) by {
                    if hit {
                        let q = choose|q: int| 0 <= q < mn && self.ids@[q] == x;
                        assert(mseq[q] == x);
                        assert(mseq.contains(x));
                    } else if mseq.contains(x) {
                        let q = choose|q: int| 0 <= q < mseq.len() && mseq[q] == x;
                        assert(self.ids@[q] == x);
                    }
                }
            }
            if hit {
                found = found + 1;
            }
            i = i + 1;
        }
        proof {
            assert(bseq.take(bn as int) =~= bseq);
        }
        found
    }

    /// The kept results, strongest first.
    pub fn iter_results(&self) -> (r: Vec<SearchResult>)
        requires
            self.inv(),
        ensures
            r@.len() == self.sims().len(),
            forall|i: int|
                0 <= i < r@.len() ==> r@[i] == (SearchResult {
                    similarity: self.sims()[i],
                    id: self.result_ids()[i],
                }),
    {
        let mut out: Vec<SearchResult> = Vec::new();
        let n = self.sims.len();
        let mut i: usize = 0;
        while i < n
            invariant
                self.inv(),
                i <= n,
                n == self.sims@.len(),
                out@.len() == i,
                forall|j: int|
                    0 <= j < i ==> out@[j] == (SearchResult {
                        similarity: self.sims()[j],
                        id: self.result_ids()[j],
                    }),
            decreases n - i,
        {
            out.push(SearchResult { similarity: self.sims[i], id: self.ids[i] });
            i = i + 1;
        }
        out
    }
}

/// How many entries of `base` occur in `mine`; entries of `base` are
/// pairwise distinct wherever this is used.
pub open spec fn spec_recall_count(base: Seq<u64>, mine: Seq<u64>) -> nat
    decreases base.len(),
{
    if base.len() == 0 {
        0
    } else {
        spec_recall_count(base.drop_last(), mine) + if mine.contains(base.last()) {
            1nat
        } else {
            0nat
        }
    }
}

/// The parallel sequences of a result set of capacity `k` after offering
/// every id of `ids` in order, each with the similarity key `sims` gives it,
/// starting from an empty set.
pub open spec fn spec_scan(ids: Seq<u64>, sims: spec_fn(u64) -> u32, k: nat) -> (Seq<u32>, Seq<u64>)
    decreases ids.len(),
{
    if ids.len() == 0 {
        (Seq::empty(), Seq::empty())
    } else {
        let prev = spec_scan(ids.drop_last(), sims, k);
        spec_add_result(prev.0, prev.1, k, ids.last(), sims(ids.last()))
    }
}

/// The smaller of two mathematical integers.
pub open spec fn spec_min(a: int, b: int) -> int {
    if a < b {
        a
    } else {
        b
    }
}

/// The top-k ordering guarantee: a well-formed result set keeps as many ids
/// as similarities, at most its capacity of either, similarities
/// non-increasing from the front, and no id twice.  `new` establishes
/// well-formedness and `add_result` preserves it, so this holds after any
/// sequence of insertions.
pub proof fn lemma_top_k_ordering(rs: &ResultSet)
    requires
        rs.inv(),
    ensures
        rs.sims().len() == rs.result_ids().len(),
        rs.sims().len() <= rs.capacity(),
        forall|i: int, j: int| 0 <= i <= j < rs.sims().len() ==> rs.sims()[i] >= rs.sims()[j],
        forall|i: int, j: int| 0 <= i < j < rs.result_ids().len() ==> rs.result_ids()[i]
            != rs.result_ids()[j],
{
}

} // verus!
