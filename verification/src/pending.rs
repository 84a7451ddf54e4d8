//! The pending-request table: a mapping from request id to a single-use
//! response sink.
use vstd::prelude::*;

verus! {

/// Whether some entry carries `id`.
pub open spec fn contains_id<S>(es: Seq<(u64, S)>, id: u64) -> bool {
    exists|i: int| 0 <= i < es.len() && (#[trigger] es[i]).0 == id
}

/// No id occurs twice.
pub open spec fn distinct_ids<S>(es: Seq<(u64, S)>) -> bool {
    forall|i: int, j: int|
        0 <= i < j < es.len() ==> (#[trigger] es[i]).0 != (#[trigger] es[j]).0
}

/// Index of the entry carrying `id`, or -1 if absent.
pub open spec fn find_id<S>(es: Seq<(u64, S)>, id: u64) -> int
    decreases es.len(),
{
    if es.len() == 0 {
        -1
    } else if es[0].0 == id {
        0
    } else if find_id(es.drop_first(), id) == -1 {
        -1
    } else {
        find_id(es.drop_first(), id) + 1
    }
}

/// The recursive `find_id` agrees with an index-based first occurrence.
pub proof fn lemma_find_id_at<S>(es: Seq<(u64, S)>, id: u64, k: int)
    requires
        0 <= k <= es.len(),
        forall|j: int| 0 <= j < k ==> (#[trigger] es[j]).0 != id,
        k < es.len() ==> es[k].0 == id,
    ensures
        find_id(es, id) == if k == es.len() { -1int } else { k },
    decreases es.len(),
{
    if es.len() > 0 && es[0].0 != id {
        assert(forall|j: int| 0 <= j < es.len() - 1 ==> #[trigger] es.drop_first()[j] == es[j + 1]);
        lemma_find_id_at(es.drop_first(), id, k - 1);
    }
}

/// The single-threaded core of the pending-request table: the mapping
/// from live request id to its response sink. One id holds at most one
/// live entry; the session's id counter keeps ids from ever being reused.
pub struct PendingRequests<S> {
    pub entries: Vec<(u64, S)>,
}

impl<S> PendingRequests<S> {
    /// The live entries, in registration order.
    pub open spec fn view(&self) -> Seq<(u64, S)> {
        self.entries@
    }

    /// Well-formedness: at most one live entry per id.
    pub open spec fn wf(&self) -> bool {
        distinct_ids(self.entries@)
    }

    /// Whether `id` has a live entry.
    pub open spec fn spec_contains(&self, id: u64) -> bool {
        contains_id(self.entries@, id)
    }

    /// An empty table.
    pub fn new() -> (r: Self)
        ensures
            r.wf(),
            r@ =~= Seq::<(u64, S)>::empty(),
    {
        PendingRequests { entries: Vec::new() }
    }

    /// Number of live entries.
    pub fn len(&self) -> (r: usize)
        ensures
            r == self@.len(),
    {
        self.entries.len()
    }

    /// Register a sink under a fresh id.
    pub fn add_request(&mut self, id: u64, sink: S)
        requires
            old(self).wf(),
            !old(self).spec_contains(id),
        ensures
            final(self).wf(),
            final(self)@ == old(self)@ + seq![(id, sink)],
            final(self).spec_contains(id),
            forall|x: u64|
                x != id ==> contains_id(final(self)@, x) == contains_id(old(self)@, x),
    {
        self.entries.push((id, sink));
        proof {
            let es = self.entries@;
            let oldes = old(self).entries@;
            assert(forall|i: int| 0 <= i < oldes.len() ==> es[i] == #[trigger] oldes[i]);
            assert(es[es.len() - 1].0 == id);
            assert forall|x: u64| x != id implies contains_id(es, x) == contains_id(
                oldes,
                x,
            ) by {
                if contains_id(es, x) {
                    let w = choose|w: int| 0 <= w < es.len() && (#[trigger] es[w]).0 == x;
                    assert(w < oldes.len());
                    assert(oldes[w].0 == x);
                }
                if contains_id(oldes, x) {
                    let w = choose|w: int| 0 <= w < oldes.len() && (#[trigger] oldes[w]).0 == x;
                    assert(es[w].0 == x);
                }
            };
        }
    }

    /// Take the sink registered under `id`, removing its entry. Returns
    /// `None` when no entry is live: a late response, a notification, or
    /// an id already completed or cancelled.
    pub fn remove_request(&mut self, id: u64) -> (r: Option<S>)
        requires
            old(self).wf(),
        ensures
            final(self).wf(),
            match r {
                Some(_) => {
                    &&& old(self).spec_contains(id)
                    &&& 0 <= find_id(old(self)@, id) < old(self)@.len()
                    &&& r == Some(old(self)@[find_id(old(self)@, id)].1)
                    &&& final(self)@ == old(self)@.remove(find_id(old(self)@, id))
                    &&& !final(self).spec_contains(id)
                },
                None => {
                    &&& !old(self).spec_contains(id)
                    &&& final(self)@ == old(self)@
                },
            },
            forall|x: u64|
                x != id ==> contains_id(final(self)@, x) == contains_id(old(self)@, x),
    {
        let n = self.entries.len();
        let mut k: usize = 0;
        while k < n
            invariant
                0 <= k <= n == self.entries@.len(),
                self.entries@ == old(self).entries@,
                old(self).wf(),
                forall|j: int| 0 <= j < k ==> (#[trigger] self.entries@[j]).0 != id,
            decreases n - k,
        {
            if self.entries[k].0 == id {
                proof {
                    lemma_find_id_at(self.entries@, id, k as int);
                }
                let entry = self.entries.remove(k);
                proof {
                    let oldes = old(self).entries@;
                    let es = self.entries@;
                    assert(es == oldes.remove(k as int));
                    assert(es.len() + 1 == oldes.len());
                    assert(forall|i: int|
                        0 <= i < es.len() ==> #[trigger] es[i] == if i < k {
                            oldes[i]
                        } else {
                            oldes[i + 1]
                        });
                    assert(oldes[k as int].0 == id);
                    assert(contains_id(oldes, id));
                    assert forall|i: int, j: int|
                        0 <= i < j < es.len() implies (#[trigger] es[i]).0 != (#[trigger] es[j]).0
                        by {
                        let i1: int = if i < k { i } else { i + 1 };
                        let j1: int = if j < k { j } else { j + 1 };
                        assert(es[i] == oldes[i1]);
                        assert(es[j] == oldes[j1]);
                        assert(0 <= i1 < j1 < oldes.len());
                        assert((oldes[i1]).0 != (oldes[j1]).0);
                    };
                    assert(distinct_ids(es));
                    assert(!contains_id(es, id)) by {
                        if contains_id(es, id) {
                            let w = choose|w: int| 0 <= w < es.len() && (#[trigger] es[w]).0 == id;
                            if w < k {
                                assert(oldes[w].0 == id);
                            } else {
                                assert(oldes[w + 1].0 == id);
                                assert(0 <= k < w + 1 < oldes.len());
                                assert((oldes[k as int]).0 != (oldes[w + 1]).0);
                            }
                        }
                    };
                    assert forall|x: u64| x != id implies contains_id(es, x) == contains_id(
                        oldes,
                        x,
                    ) by {
                        if contains_id(es, x) {
                            let w = choose|w: int| 0 <= w < es.len() && (#[trigger] es[w]).0 == x;
                            if w < k {
                                assert(oldes[w].0 == x);
                            } else {
                                assert(oldes[w + 1].0 == x);
                            }
                        }
                        if contains_id(oldes, x) {
                            let w = choose|w: int|
                                0 <= w < oldes.len() && (#[trigger] oldes[w]).0 == x;
                            if w < k {
                                assert(es[w].0 == x);
                            } else {
                                assert(w != k);
                                assert(es[w - 1].0 == x);
                            }
                        }
                    };
                }
                return Some(entry.1);
            }
            k = k + 1;
        }
        None
    }

    /// Take every live sink, leaving the table empty. Used when the
    /// transport fails: every outstanding request is completed with a
    /// terminal signal.
    pub fn drain(&mut self) -> (r: Vec<S>)
        requires
            old(self).wf(),
        ensures
            final(self).wf(),
            final(self)@ =~= Seq::<(u64, S)>::empty(),
            r@.len() == old(self)@.len(),
            forall|i: int| 0 <= i < r@.len() ==> r@[i] == (#[trigger] old(self)@[i]).1,
    {
        let mut out: Vec<S> = Vec::new();
        let ghost oldes = self.entries@;
        while self.entries.len() > 0
            invariant
                out@.len() + self.entries@.len() == oldes.len(),
                forall|i: int| 0 <= i < out@.len() ==> out@[i] == (#[trigger] oldes[i]).1,
                forall|i: int|
                    0 <= i < self.entries@.len() ==> #[trigger] self.entries@[i] == oldes[i
                        + out@.len()],
                distinct_ids(self.entries@),
            decreases self.entries@.len(),
        {
            let e = self.entries.remove(0);
            out.push(e.1);
        }
        out
    }
}

} // verus!
