//! The document store, modeled as an in-memory structure: one collection pair
//! per series name, holding the time-series rows and the metadata ledger.
//!
//! In a deployment the same operations run against an external document
//! database; this model is what the engine's correctness is stated and proved
//! against, and it is complete enough to run the whole engine in memory.

use vstd::prelude::*;

use crate::calendar::{valid_ts, EPOCH_START_MS};
use crate::models::{
    granularity_of_name, granularity_for, ledger_matches_key, row_matches_key, same_key,
    Granularity, SeriesKey, SeriesMetadata, SeriesRow, SyncError,
};

verus! {

/// The physical collection pair for one series name: the time-bucketed rows
/// collection and its sibling metadata (ledger) collection.
pub struct SeriesCollection {
    pub name: String,
    pub granularity: Granularity,
    pub rows: Vec<SeriesRow>,
    pub metadata: Vec<SeriesMetadata>,
}

impl SeriesCollection {
    /// Every stored timestamp is in the supported range, and the bucketing
    /// granularity is the one the collection name calls for.
    pub open spec fn wf(self) -> bool {
        &&& granularity_of_name(self.name@) == Some(self.granularity)
        &&& forall|i: int|
            0 <= i < self.rows@.len() ==> valid_ts((#[trigger] self.rows@[i]).datetime as int)
        &&& forall|i: int|
            0 <= i < self.metadata@.len() ==> {
                let m = #[trigger] self.metadata@[i];
                valid_ts(m.from as int) && valid_ts(m.to as int) && valid_ts(m.last_updated as int)
            }
    }
}

/// The whole store: a set of collection pairs with pairwise distinct names.
pub struct SeriesStore {
    pub collections: Vec<SeriesCollection>,
}

impl SeriesStore {
    pub open spec fn wf(self) -> bool {
        &&& forall|i: int, j: int|
            0 <= i < j < self.collections@.len() ==> (#[trigger] self.collections@[i]).name@ != (
            #[trigger] self.collections@[j]).name@
        &&& forall|i: int| 0 <= i < self.collections@.len() ==> (#[trigger] self.collections@[i]).wf()
    }

    pub open spec fn has_collection(self, name: Seq<char>) -> bool {
        exists|i: int|
            0 <= i < self.collections@.len() && (#[trigger] self.collections@[i]).name@ == name
    }

    pub open spec fn collection_index(self, name: Seq<char>) -> int {
        choose|i: int|
            0 <= i < self.collections@.len() && (#[trigger] self.collections@[i]).name@ == name
    }

    pub open spec fn the_collection(self, name: Seq<char>) -> SeriesCollection {
        self.collections@[self.collection_index(name)]
    }

    /// The ledger entries recorded for a series key: the matching documents
    /// of the metadata collection named by the key.
    pub open spec fn ledger_docs_for(self, k: SeriesKey) -> Seq<SeriesMetadata> {
        if self.has_collection(k.series_name@) {
            self.the_collection(k.series_name@).metadata@.filter(
                |m: SeriesMetadata| ledger_matches_key(m, k),
            )
        } else {
            Seq::empty()
        }
    }

    /// The rows stored for a series key, in insertion order: the rows of the
    /// collection named by the key whose embedded blob matches the key.
    pub open spec fn rows_for(self, k: SeriesKey) -> Seq<SeriesRow> {
        if self.has_collection(k.series_name@) {
            self.the_collection(k.series_name@).rows@.filter(
                |r: SeriesRow| row_matches_key(r, k),
            )
        } else {
            Seq::empty()
        }
    }

    /// The rows stored for a series key whose timestamp lies in the inclusive
    /// window `[from, to]`, in insertion order.
    pub open spec fn rows_in_window(self, k: SeriesKey, from: int, to: int) -> Seq<SeriesRow> {
        if self.has_collection(k.series_name@) {
            self.the_collection(k.series_name@).rows@.filter(
                |r: SeriesRow| row_matches_key(r, k) && from <= r.datetime <= to,
            )
        } else {
            Seq::empty()
        }
    }
}

/// In a well-formed store the index of a collection's name is that
/// collection's own position.
pub proof fn lemma_collection_index(s: SeriesStore, i: int)
    requires
        s.wf(),
        0 <= i < s.collections@.len(),
    ensures
        s.has_collection(s.collections@[i].name@),
        s.collection_index(s.collections@[i].name@) == i,
        s.the_collection(s.collections@[i].name@) == s.collections@[i],
{
    let name = s.collections@[i].name@;
    assert(s.has_collection(name));
    let j = s.collection_index(name);
    if i != j {
        assert(s.collections@[i].name@ != s.collections@[j].name@);
    }
}

/// Filtering a sequence extended by one element keeps the old result and
/// appends the new element exactly when it satisfies the predicate.
pub proof fn lemma_filter_push<A>(s: Seq<A>, pred: spec_fn(A) -> bool, x: A)
    ensures
        s.push(x).filter(pred) == if pred(x) {
            s.filter(pred).push(x)
        } else {
            s.filter(pred)
        },
{
    reveal(Seq::filter);
    assert(s.push(x).drop_last() =~= s);
}

/// Every element of a filtered sequence occurs in the unfiltered one and satisfies
/// the predicate.
pub proof fn lemma_filter_elements<A>(s: Seq<A>, pred: spec_fn(A) -> bool)
    ensures
        forall|i: int|
            0 <= i < s.filter(pred).len() ==> s.contains(#[trigger] s.filter(pred)[i]) && pred(
                s.filter(pred)[i],
            ),
    decreases s.len(),
{
    reveal(Seq::filter);
    if s.len() > 0 {
        lemma_filter_elements(s.drop_last(), pred);
        assert forall|i: int| 0 <= i < s.filter(pred).len() implies s.contains(
            #[trigger] s.filter(pred)[i],
        ) && pred(s.filter(pred)[i]) by {
            let sub = s.drop_last().filter(pred);
            if i < sub.len() {
                assert(s.drop_last().contains(sub[i]));
                let j = choose|j: int| 0 <= j < s.drop_last().len() && s.drop_last()[j] == sub[i];
                assert(s[j] == sub[i]);
            } else {
                assert(s.filter(pred)[i] == s.last());
            }
        }
    }
}

/// A filter keeps everything when the predicate holds of every element.
pub proof fn lemma_filter_all<A>(s: Seq<A>, pred: spec_fn(A) -> bool)
    requires
        forall|i: int| 0 <= i < s.len() ==> pred(#[trigger] s[i]),
    ensures
        s.filter(pred) == s,
    decreases s.len(),
{
    reveal(Seq::filter);
    if s.len() > 0 {
        lemma_filter_all(s.drop_last(), pred);
        assert(s.filter(pred) =~= s);
    } else {
        assert(s.filter(pred) =~= s);
    }
}

/// A filter keeps nothing when the predicate holds of no element.
pub proof fn lemma_filter_none<A>(s: Seq<A>, pred: spec_fn(A) -> bool)
    requires
        forall|i: int| 0 <= i < s.len() ==> !pred(#[trigger] s[i]),
    ensures
        s.filter(pred) == Seq::<A>::empty(),
    decreases s.len(),
{
    reveal(Seq::filter);
    if s.len() > 0 {
        lemma_filter_none(s.drop_last(), pred);
    }
}

impl SeriesStore {
    /// An empty store: no collections, hence no ledger entries and no rows.
    pub fn new() -> (s: SeriesStore)
        ensures
            s.wf(),
            s.collections@.len() == 0,
            forall|k: SeriesKey| s.ledger_docs_for(k) == Seq::<SeriesMetadata>::empty(),
            forall|k: SeriesKey| s.rows_for(k) == Seq::<SeriesRow>::empty(),
    {
        SeriesStore { collections: Vec::new() }
    }

    /// The position of the collection pair named `name`, if one exists.
    fn find_collection(&self, name: &String) -> (r: Option<usize>)
        requires
            self.wf(),
        ensures
            match r {
                Some(i) => i < self.collections@.len() && self.collections@[i as int].name@
                    == name@ && self.has_collection(name@) && self.collection_index(name@)
                    == i as int,
                None => !self.has_collection(name@),
            },
    {
        let n = self.collections.len();
        let mut i: usize = 0;
        while i < n
            invariant
                self.wf(),
                n == self.collections@.len(),
                i <= n,
                forall|j: int| 0 <= j < i ==> (#[trigger] self.collections@[j]).name@ != name@,
            decreases n - i,
        {
            if self.collections[i].name == *name {
                proof {
                    lemma_collection_index(*self, i as int);
                }
                return Some(i);
            }
            i = i + 1;
        }
        None
    }

    /// Creates the collection pair for a series name: the time-series rows
    /// collection, bucketed by the granularity the name's suffix calls for,
    /// and the sibling metadata collection.  Fails when the suffix is not
    /// recognized or the pair already exists.
    pub fn create_series_collection(&mut self, name: &String) -> (r: Result<(), SyncError>)
        requires
            old(self).wf(),
        ensures
            final(self).wf(),
            match r {
                Ok(()) => !old(self).has_collection(name@) && granularity_of_name(name@) is Some
                    && final(self).collections@.len() == old(self).collections@.len() + 1
                    && final(self).collections@.subrange(0, old(self).collections@.len() as int)
                    == old(self).collections@ && {
                    let c = final(self).collections@.last();
                    c.name@ == name@ && Some(c.granularity) == granularity_of_name(name@)
                        && c.rows@.len() == 0 && c.metadata@.len() == 0
                },
                Err(e) => e == SyncError::Provision && *final(self) == *old(self) && (
                granularity_of_name(name@) is None || old(self).has_collection(name@)),
            },
    {
        let g = match granularity_for(name.as_str()) {
            Some(g) => g,
            None => {
                return Err(SyncError::Provision);
            },
        };
        match self.find_collection(name) {
            Some(_) => Err(SyncError::Provision),
            None => {
                let c = SeriesCollection {
                    name: name.clone(),
                    granularity: g,
                    rows: Vec::new(),
                    metadata: Vec::new(),
                };
                self.collections.push(c);
                proof {
                    assert(self.collections@.subrange(0, old(self).collections@.len() as int)
                        =~= old(self).collections@);
                }
                Ok(())
            },
        }
    }

    /// Idempotent provisioning (`ensureSeriesStorage`): creates the
    /// collection pair for `name` unless it already exists; never fails on an
    /// already provisioned name.
    pub fn ensure_series_storage(&mut self, name: &String) -> (r: Result<(), SyncError>)
        requires
            old(self).wf(),
        ensures
            final(self).wf(),
            match r {
                Ok(()) => final(self).has_collection(name@) && if old(self).has_collection(name@) {
                    *final(self) == *old(self)
                } else {
                    final(self).collections@.len() == old(self).collections@.len() + 1
                        && final(self).collections@.subrange(
                        0,
                        old(self).collections@.len() as int,
                    ) == old(self).collections@ && {
                        let c = final(self).collections@.last();
                        c.name@ == name@ && c.rows@.len() == 0 && c.metadata@.len() == 0
                    }
                },
                Err(e) => e == SyncError::Provision && *final(self) == *old(self) && !old(
                    self,
                ).has_collection(name@) && granularity_of_name(name@) is None,
            },
            forall|k: SeriesKey| final(self).ledger_docs_for(k) == old(self).ledger_docs_for(k),
            forall|k: SeriesKey| final(self).rows_for(k) == old(self).rows_for(k),
            forall|k: SeriesKey, from: int, to: int|
                final(self).rows_in_window(k, from, to) == old(self).rows_in_window(k, from, to),
            forall|n: Seq<char>|
                old(self).has_collection(n) ==> #[trigger] final(self).has_collection(n)
                    && final(self).the_collection(n) == old(self).the_collection(n),
    {
        let r = match self.find_collection(name) {
            Some(_) => Ok(()),
            None => {
                match self.create_series_collection(name) {
                    Ok(()) => Ok(()),
                    Err(e) => Err(e),
                }
            },
        };
        proof {
            if *self != *old(self) {
                lemma_append_one_collection(*old(self), *self);
            }
        }
        r
    }
}

/// Timestamps are ordered ascending.
pub open spec fn sorted_by_ts(s: Seq<SeriesRow>) -> bool {
    forall|i: int, j: int| 0 <= i <= j < s.len() ==> s[i].datetime <= s[j].datetime
}

/// `t` is the minimum timestamp occurring in `s`.
pub open spec fn is_min_ts(s: Seq<SeriesRow>, t: int) -> bool {
    &&& exists|i: int| 0 <= i < s.len() && (#[trigger] s[i]).datetime == t
    &&& forall|i: int| 0 <= i < s.len() ==> (#[trigger] s[i]).datetime >= t
}

/// `t` is the maximum timestamp occurring in `s`.
pub open spec fn is_max_ts(s: Seq<SeriesRow>, t: int) -> bool {
    &&& exists|i: int| 0 <= i < s.len() && (#[trigger] s[i]).datetime == t
    &&& forall|i: int| 0 <= i < s.len() ==> (#[trigger] s[i]).datetime <= t
}

/// Replacing the collection at `ci` by one with the same name leaves every
/// other series name untouched, and routes the contents seen for keys of that
/// name to the new collection.
proof fn lemma_update_one_collection(s0: SeriesStore, s1: SeriesStore, ci: int)
    requires
        s0.wf(),
        0 <= ci < s0.collections@.len(),
        s1.collections@ == s0.collections@.update(ci, s1.collections@[ci]),
        s1.collections@[ci].name@ == s0.collections@[ci].name@,
    ensures
        s1.wf() <==> s1.collections@[ci].wf(),
        forall|n: Seq<char>| s1.has_collection(n) == s0.has_collection(n),
        forall|k: SeriesKey|
            k.series_name@ != s0.collections@[ci].name@ ==> #[trigger] s1.ledger_docs_for(k)
                == s0.ledger_docs_for(k) && s1.rows_for(k) == s0.rows_for(k),
        forall|k: SeriesKey, from: int, to: int|
            k.series_name@ != s0.collections@[ci].name@ ==> #[trigger] s1.rows_in_window(
                k,
                from,
                to,
            ) == s0.rows_in_window(k, from, to),
        forall|k: SeriesKey|
            k.series_name@ == s0.collections@[ci].name@ ==> #[trigger] s1.ledger_docs_for(k)
                == s1.collections@[ci].metadata@.filter(
                |m: SeriesMetadata| ledger_matches_key(m, k),
            ) && s1.rows_for(k) == s1.collections@[ci].rows@.filter(
                |r: SeriesRow| row_matches_key(r, k),
            ) && s0.ledger_docs_for(k) == s0.collections@[ci].metadata@.filter(
                |m: SeriesMetadata| ledger_matches_key(m, k),
            ) && s0.rows_for(k) == s0.collections@[ci].rows@.filter(
                |r: SeriesRow| row_matches_key(r, k),
            ),
        forall|k: SeriesKey, from: int, to: int|
            k.series_name@ == s0.collections@[ci].name@ ==> #[trigger] s1.rows_in_window(
                k,
                from,
                to,
            ) == s1.collections@[ci].rows@.filter(
                |r: SeriesRow| row_matches_key(r, k) && from <= r.datetime <= to,
            ) && s0.rows_in_window(k, from, to) == s0.collections@[ci].rows@.filter(
                |r: SeriesRow| row_matches_key(r, k) && from <= r.datetime <= to,
            ),
{
    let nm = s0.collections@[ci].name@;
    assert(forall|i: int|
        0 <= i < s1.collections@.len() && i != ci ==> s1.collections@[i] == s0.collections@[i]);
    assert(forall|i: int|
        0 <= i < s1.collections@.len() ==> (#[trigger] s1.collections@[i]).name@
            == s0.collections@[i].name@);
    assert forall|n: Seq<char>| s1.has_collection(n) == s0.has_collection(n) by {
        if s0.has_collection(n) {
            let i = s0.collection_index(n);
            assert(s1.collections@[i].name@ == n);
        }
        if s1.has_collection(n) {
            let i = s1.collection_index(n);
            assert(s0.collections@[i].name@ == n);
        }
    }
    if s1.wf() {
        assert(s1.collections@[ci].wf());
    } else {
        if s1.collections@[ci].wf() {
            assert forall|i: int, j: int|
                0 <= i < j < s1.collections@.len() implies (#[trigger] s1.collections@[i]).name@
                != (#[trigger] s1.collections@[j]).name@ by {
                assert(s0.collections@[i].name@ != s0.collections@[j].name@);
            }
            assert forall|i: int| 0 <= i < s1.collections@.len() implies (
            #[trigger] s1.collections@[i]).wf() by {
                if i != ci {
                    assert(s1.collections@[i] == s0.collections@[i]);
                }
            }
            assert(s1.wf());
        }
    }
    assert forall|k: SeriesKey| k.series_name@ != nm implies #[trigger] s1.ledger_docs_for(k)
        == s0.ledger_docs_for(k) && s1.rows_for(k) == s0.rows_for(k) by {
        lemma_other_name_contents(s0, s1, ci, k);
    }
    assert forall|k: SeriesKey, from: int, to: int| k.series_name@ != nm implies
        #[trigger] s1.rows_in_window(k, from, to) == s0.rows_in_window(k, from, to) by {
        lemma_other_name_contents(s0, s1, ci, k);
    }
    assert forall|k: SeriesKey| k.series_name@ == nm implies {
        &&& #[trigger] s1.ledger_docs_for(k) == s1.collections@[ci].metadata@.filter(
            |m: SeriesMetadata| ledger_matches_key(m, k),
        )
        &&& s1.rows_for(k) == s1.collections@[ci].rows@.filter(
            |r: SeriesRow| row_matches_key(r, k),
        )
        &&& s0.ledger_docs_for(k) == s0.collections@[ci].metadata@.filter(
            |m: SeriesMetadata| ledger_matches_key(m, k),
        )
        &&& s0.rows_for(k) == s0.collections@[ci].rows@.filter(
            |r: SeriesRow| row_matches_key(r, k),
        )
    } by {
        lemma_collection_index(s0, ci);
        lemma_index_of_updated(s0, s1, ci, k.series_name@);
    }
    assert forall|k: SeriesKey, from: int, to: int| k.series_name@ == nm implies {
        &&& #[trigger] s1.rows_in_window(k, from, to) == s1.collections@[ci].rows@.filter(
            |r: SeriesRow| row_matches_key(r, k) && from <= r.datetime <= to,
        )
        &&& s0.rows_in_window(k, from, to) == s0.collections@[ci].rows@.filter(
            |r: SeriesRow| row_matches_key(r, k) && from <= r.datetime <= to,
        )
    } by {
        lemma_collection_index(s0, ci);
        lemma_index_of_updated(s0, s1, ci, k.series_name@);
    }
}

/// Helper: after an update at `ci` that keeps the name, the updated store
/// still finds that name at `ci`.
proof fn lemma_index_of_updated(s0: SeriesStore, s1: SeriesStore, ci: int, n: Seq<char>)
    requires
        s0.wf(),
        0 <= ci < s0.collections@.len(),
        s1.collections@ == s0.collections@.update(ci, s1.collections@[ci]),
        s1.collections@[ci].name@ == s0.collections@[ci].name@,
        n == s0.collections@[ci].name@,
    ensures
        s1.has_collection(n),
        s1.collection_index(n) == ci,
        s1.the_collection(n) == s1.collections@[ci],
{
    assert(s1.collections@[ci].name@ == n);
    assert(s1.has_collection(n));
    let j = s1.collection_index(n);
    if j != ci {
        assert(s0.collections@[j].name@ == n);
        lemma_collection_index(s0, ci);
        assert(s0.collection_index(n) == ci);
        assert(s0.has_collection(n));
        if j < ci {
            assert(s0.collections@[j].name@ != s0.collections@[ci].name@);
        } else {
            assert(s0.collections@[ci].name@ != s0.collections@[j].name@);
        }
    }
}

/// Helper: a key whose series name is not the updated collection's name sees
/// identical contents in both stores.
proof fn lemma_other_name_contents(s0: SeriesStore, s1: SeriesStore, ci: int, k: SeriesKey)
    requires
        s0.wf(),
        0 <= ci < s0.collections@.len(),
        s1.collections@ == s0.collections@.update(ci, s1.collections@[ci]),
        s1.collections@[ci].name@ == s0.collections@[ci].name@,
        k.series_name@ != s0.collections@[ci].name@,
    ensures
        s1.ledger_docs_for(k) == s0.ledger_docs_for(k),
        s1.rows_for(k) == s0.rows_for(k),
        forall|from: int, to: int|
            #![trigger s1.rows_in_window(k, from, to)]
            s1.rows_in_window(k, from, to) == s0.rows_in_window(k, from, to),
{
    let n = k.series_name@;
    assert(forall|i: int|
        0 <= i < s1.collections@.len() && i != ci ==> s1.collections@[i] == s0.collections@[i]);
    if s0.has_collection(n) {
        let i = s0.collection_index(n);
        lemma_collection_index(s0, i);
        assert(s1.collections@[i].name@ == n);
        assert(s1.has_collection(n));
        let j = s1.collection_index(n);
        assert(s1.collections@[j].name@ == n);
        assert(j != ci);
        assert(s0.collections@[j].name@ == n);
        if i != j {
            assert(s0.collections@[i].name@ != s0.collections@[j].name@);
        }
        assert(s1.the_collection(n) == s0.the_collection(n));
    } else {
        if s1.has_collection(n) {
            let j = s1.collection_index(n);
            assert(j != ci);
            assert(s0.collections@[j].name@ == n);
        }
    }
}

/// Appending one fresh, empty collection changes no ledger entries, no rows
/// and no existing collection.
proof fn lemma_append_one_collection(s0: SeriesStore, s1: SeriesStore)
    requires
        s0.wf(),
        s1.wf(),
        s1.collections@.len() == s0.collections@.len() + 1,
        s1.collections@.subrange(0, s0.collections@.len() as int) == s0.collections@,
        s1.collections@.last().rows@.len() == 0,
        s1.collections@.last().metadata@.len() == 0,
    ensures
        forall|k: SeriesKey| s1.ledger_docs_for(k) == s0.ledger_docs_for(k),
        forall|k: SeriesKey| s1.rows_for(k) == s0.rows_for(k),
        forall|k: SeriesKey, from: int, to: int|
            s1.rows_in_window(k, from, to) == s0.rows_in_window(k, from, to),
        forall|n: Seq<char>|
            s0.has_collection(n) ==> #[trigger] s1.has_collection(n) && s1.the_collection(n)
                == s0.the_collection(n),
{
    let n0 = s0.collections@.len() as int;
    assert(forall|i: int| 0 <= i < n0 ==> s1.collections@[i] == s0.collections@[i]);
    assert forall|n: Seq<char>| s0.has_collection(n) implies #[trigger] s1.has_collection(n)
        && s1.the_collection(n) == s0.the_collection(n) by {
        let i = s0.collection_index(n);
        assert(0 <= i < n0 && s0.collections@[i].name@ == n);
        assert(s1.collections@[i].name@ == n);
        lemma_collection_index(s0, i);
        lemma_collection_index(s1, i);
    }
    assert forall|k: SeriesKey| s1.ledger_docs_for(k) == s0.ledger_docs_for(k) by {
        lemma_collection_contents_same(s0, s1, k);
    }
    assert forall|k: SeriesKey| s1.rows_for(k) == s0.rows_for(k) by {
        lemma_collection_contents_same(s0, s1, k);
    }
    assert forall|k: SeriesKey, from: int, to: int|
        s1.rows_in_window(k, from, to) == s0.rows_in_window(k, from, to) by {
        lemma_collection_contents_same(s0, s1, k);
    }
}

/// Helper for `lemma_append_one_collection`: the contents seen for one key
/// agree between the two stores.
proof fn lemma_collection_contents_same(s0: SeriesStore, s1: SeriesStore, k: SeriesKey)
    requires
        s0.wf(),
        s1.wf(),
        s1.collections@.len() == s0.collections@.len() + 1,
        s1.collections@.subrange(0, s0.collections@.len() as int) == s0.collections@,
        s1.collections@.last().rows@.len() == 0,
        s1.collections@.last().metadata@.len() == 0,
    ensures
        s1.ledger_docs_for(k) == s0.ledger_docs_for(k),
        s1.rows_for(k) == s0.rows_for(k),
        forall|from: int, to: int|
            #![trigger s1.rows_in_window(k, from, to)]
            s1.rows_in_window(k, from, to) == s0.rows_in_window(k, from, to),
{
    let n0 = s0.collections@.len() as int;
    let name = k.series_name@;
    assert(forall|i: int| 0 <= i < n0 ==> s1.collections@[i] == s0.collections@[i]);
    if s0.has_collection(name) {
        let i = s0.collection_index(name);
        assert(0 <= i < n0 && s0.collections@[i].name@ == name);
        lemma_collection_index(s0, i);
        lemma_collection_index(s1, i);
    } else {
        if s1.has_collection(name) {
            let i = s1.collection_index(name);
            assert(0 <= i < n0 + 1 && s1.collections@[i].name@ == name);
            if i < n0 {
                assert(s0.collections@[i].name@ == name);
                assert(s0.has_collection(name));
            } else {
                lemma_collection_index(s1, n0);
                assert(s1.the_collection(name).rows@ =~= Seq::<SeriesRow>::empty());
                assert(s1.the_collection(name).metadata@ =~= Seq::<SeriesMetadata>::empty());
                reveal(Seq::filter);
                assert(s1.ledger_docs_for(k) =~= Seq::<SeriesMetadata>::empty());
                assert(s1.rows_for(k) =~= Seq::<SeriesRow>::empty());
                assert forall|from: int, to: int|
                    #![trigger s1.rows_in_window(k, from, to)]
                    s1.rows_in_window(k, from, to) == s0.rows_in_window(k, from, to) by {
                    assert(s1.rows_in_window(k, from, to) =~= Seq::<SeriesRow>::empty());
                }
            }
        }
    }
}

impl SeriesStore {
    /// Seeds the ledger for a new series: one entry whose synced range starts
    /// at the epoch-start sentinel and ends at the current time, both to be
    /// corrected to the true stored range by the first refresh.  Fails when the
    /// collection pair for the key's series name does not exist.
    pub fn insert_metadata(&mut self, key: &SeriesKey, now: i64) -> (r: Result<
        SeriesMetadata,
        SyncError,
    >)
        requires
            old(self).wf(),
            valid_ts(now as int),
        ensures
            final(self).wf(),
            match r {
                Ok(doc) => old(self).has_collection(key.series_name@) && ledger_matches_key(
                    doc,
                    *key,
                ) && doc.from == EPOCH_START_MS && doc.to == now && doc.last_updated == now && (
                forall|k: SeriesKey|
                    #[trigger] final(self).ledger_docs_for(k) == if ledger_matches_key(doc, k) {
                        old(self).ledger_docs_for(k).push(doc)
                    } else {
                        old(self).ledger_docs_for(k)
                    }) && (forall|k: SeriesKey|
                    #[trigger] final(self).rows_for(k) == old(self).rows_for(k)) && (forall|
                    k: SeriesKey,
                    from: int,
                    to: int,
                |
                    #[trigger] final(self).rows_in_window(k, from, to) == old(self).rows_in_window(
                        k,
                        from,
                        to,
                    )) && (forall|n: Seq<char>|
                    final(self).has_collection(n) == old(self).has_collection(n)),
                Err(e) => e == SyncError::Update && *final(self) == *old(self) && !old(
                    self,
                ).has_collection(key.series_name@),
            },
    {
        let ci = match self.find_collection(&key.series_name) {
            None => {
                return Err(SyncError::Update);
            },
            Some(ci) => ci,
        };
        let doc = SeriesMetadata {
            ticker: key.ticker.clone(),
            exchange: key.exchange.clone(),
            series_name: key.series_name.clone(),
            source: key.source.clone(),
            from: EPOCH_START_MS,
            to: now,
            last_updated: now,
        };
        let ret = doc.clone();
        let mut c = self.collections.remove(ci);
        let ghost c0 = c;
        c.metadata.push(doc);
        self.collections.insert(ci, c);
        proof {
            assert(self.collections@ =~= old(self).collections@.update(ci as int, c));
            assert(c.wf());
            lemma_update_one_collection(*old(self), *self, ci as int);
            let nm = old(self).collections@[ci as int].name@;
            assert(nm == key.series_name@);
            assert forall|k: SeriesKey|
                #[trigger] self.ledger_docs_for(k) == if ledger_matches_key(ret, k) {
                    old(self).ledger_docs_for(k).push(ret)
                } else {
                    old(self).ledger_docs_for(k)
                } by {
                if k.series_name@ == nm {
                    lemma_filter_push(
                        c0.metadata@,
                        |m: SeriesMetadata| ledger_matches_key(m, k),
                        ret,
                    );
                } else {
                    assert(!ledger_matches_key(ret, k));
                }
            }
        }
        Ok(ret)
    }

    /// The ledger entries currently recorded for a series key, in insertion
    /// order.  At most one entry is expected; callers treat more than one as
    /// corruption.
    pub fn metadata_for(&self, key: &SeriesKey) -> (r: Vec<SeriesMetadata>)
        requires
            self.wf(),
        ensures
            r@ == self.ledger_docs_for(*key),
            forall|i: int|
                0 <= i < r@.len() ==> valid_ts((#[trigger] r@[i]).from as int) && valid_ts(
                    r@[i].to as int,
                ) && valid_ts(r@[i].last_updated as int),
    {
        let mut r: Vec<SeriesMetadata> = Vec::new();
        let ci = match self.find_collection(&key.series_name) {
            None => {
                return r;
            },
            Some(ci) => ci,
        };
        let ghost pred = |m: SeriesMetadata| ledger_matches_key(m, *key);
        let n = self.collections[ci].metadata.len();
        let mut i: usize = 0;
        while i < n
            invariant
                self.wf(),
                ci < self.collections@.len(),
                self.collections@[ci as int].name@ == key.series_name@,
                self.collection_index(key.series_name@) == ci as int,
                self.has_collection(key.series_name@),
                n == self.collections@[ci as int].metadata@.len(),
                i <= n,
                r@ == self.collections@[ci as int].metadata@.take(i as int).filter(pred),
                pred == (|m: SeriesMetadata| ledger_matches_key(m, *key)),
            decreases n - i,
        {
            let ghost md = self.collections@[ci as int].metadata@;
            proof {
                assert(md.take(i + 1) =~= md.take(i as int).push(md[i as int]));
                lemma_filter_push(md.take(i as int), pred, md[i as int]);
            }
            if self.collections[ci].metadata[i].matches_key(key) {
                r.push(self.collections[ci].metadata[i].clone());
            }
            i = i + 1;
        }
        proof {
            let md = self.collections@[ci as int].metadata@;
            assert(md.take(n as int) =~= md);
            assert(r@ == self.ledger_docs_for(*key));
            lemma_filter_elements(md, pred);
            assert forall|j: int| 0 <= j < r@.len() implies valid_ts((#[trigger] r@[j]).from as int)
                && valid_ts(r@[j].to as int) && valid_ts(r@[j].last_updated as int) by {
                assert(md.contains(r@[j]));
                let x = choose|x: int| 0 <= x < md.len() && md[x] == r@[j];
                assert(self.collections@[ci as int].wf());
            }
        }
        r
    }

    /// Bulk-loads rows into the collection named `series_name`, appending
    /// them in order.  An empty row set is a no-op, not an error; a missing
    /// collection is a load error.  Rows are append-only: nothing already
    /// stored is rewritten or deleted.
    pub fn insert_series(&mut self, series_name: &String, rows: Vec<SeriesRow>) -> (r: Result<
        (),
        SyncError,
    >)
        requires
            old(self).wf(),
            forall|i: int| 0 <= i < rows@.len() ==> valid_ts((#[trigger] rows@[i]).datetime as int),
        ensures
            final(self).wf(),
            match r {
                Ok(()) => old(self).has_collection(series_name@) && (forall|k: SeriesKey|
                    #[trigger] final(self).ledger_docs_for(k) == old(self).ledger_docs_for(k)) && (
                forall|n: Seq<char>|
                    final(self).has_collection(n) == old(self).has_collection(n)) && (forall|
                    k: SeriesKey,
                |
                    k.series_name@ == series_name@ ==> #[trigger] final(self).rows_for(k) == old(
                        self,
                    ).rows_for(k) + rows@.filter(|row: SeriesRow| row_matches_key(row, k))) && (
                forall|k: SeriesKey|
                    k.series_name@ != series_name@ ==> #[trigger] final(self).rows_for(k) == old(
                        self,
                    ).rows_for(k)) && (forall|k: SeriesKey, from: int, to: int|
                    k.series_name@ == series_name@ ==> #[trigger] final(self).rows_in_window(
                        k,
                        from,
                        to,
                    ) == old(self).rows_in_window(k, from, to) + rows@.filter(
                        |row: SeriesRow| row_matches_key(row, k) && from <= row.datetime <= to,
                    )) && (forall|k: SeriesKey, from: int, to: int|
                    k.series_name@ != series_name@ ==> #[trigger] final(self).rows_in_window(
                        k,
                        from,
                        to,
                    ) == old(self).rows_in_window(k, from, to)),
                Err(e) => e == SyncError::Load && *final(self) == *old(self) && !old(
                    self,
                ).has_collection(series_name@),
            },
    {
        let ci = match self.find_collection(series_name) {
            None => {
                return Err(SyncError::Load);
            },
            Some(ci) => ci,
        };
        let mut rows = rows;
        let mut c = self.collections.remove(ci);
        let ghost c0 = c;
        let ghost given = rows@;
        c.rows.append(&mut rows);
        self.collections.insert(ci, c);
        proof {
            assert(self.collections@ =~= old(self).collections@.update(ci as int, c));
            assert(c.wf());
            lemma_update_one_collection(*old(self), *self, ci as int);
            let nm = old(self).collections@[ci as int].name@;
            assert(nm == series_name@);
            assert forall|k: SeriesKey| k.series_name@ == series_name@ implies
                #[trigger] self.rows_for(k) == old(self).rows_for(k) + given.filter(
                |row: SeriesRow| row_matches_key(row, k),
            ) by {
                Seq::filter_distributes_over_add(
                    c0.rows@,
                    given,
                    |row: SeriesRow| row_matches_key(row, k),
                );
            }
            assert forall|k: SeriesKey, from: int, to: int| k.series_name@ == series_name@ implies
                #[trigger] self.rows_in_window(k, from, to) == old(self).rows_in_window(k, from, to)
                + given.filter(
                |row: SeriesRow| row_matches_key(row, k) && from <= row.datetime <= to,
            ) by {
                Seq::filter_distributes_over_add(
                    c0.rows@,
                    given,
                    |row: SeriesRow| row_matches_key(row, k) && from <= row.datetime <= to,
                );
            }
        }
        Ok(())
    }
}

/// Filtering the empty sequence, or a singleton, is immediate.
proof fn lemma_filter_singleton<A>(x: A, pred: spec_fn(A) -> bool)
    ensures
        Seq::<A>::empty().filter(pred) == Seq::<A>::empty(),
        seq![x].filter(pred) == if pred(x) {
            seq![x]
        } else {
            Seq::<A>::empty()
        },
{
    reveal(Seq::filter);
    assert(seq![x] =~= Seq::<A>::empty().push(x));
    lemma_filter_push(Seq::<A>::empty(), pred, x);
}

/// Decomposes a sequence around position `i` for filter reasoning: the
/// filter of the whole is the filter of the prefix, the element (when it
/// satisfies the predicate), and the filter of the suffix.
proof fn lemma_filter_around<A>(s: Seq<A>, i: int, pred: spec_fn(A) -> bool)
    requires
        0 <= i < s.len(),
    ensures
        s.filter(pred) == s.subrange(0, i).filter(pred) + seq![s[i]].filter(pred) + s.subrange(
            i + 1,
            s.len() as int,
        ).filter(pred),
{
    let a = s.subrange(0, i);
    let b = seq![s[i]];
    let c = s.subrange(i + 1, s.len() as int);
    assert(s =~= a + b + c);
    Seq::filter_distributes_over_add(a + b, c, pred);
    Seq::filter_distributes_over_add(a, b, pred);
}

impl SeriesStore {
    /// Refreshes the ledger entry of a series key from what is actually
    /// stored: sets `from` and `to` to the true minimum and maximum stored
    /// timestamp for the key and stamps `last_updated`, in one update of the
    /// single matching entry.  When no rows are stored for the key the prior
    /// ledger values are preserved unchanged.  A missing entry is an update
    /// error; more than one is the duplicate-metadata corruption condition.
    #[verifier::rlimit(80)]
    pub fn update_metadata_dates(&mut self, key: &SeriesKey, now: i64) -> (r: Result<
        (),
        SyncError,
    >)
        requires
            old(self).wf(),
            valid_ts(now as int),
        ensures
            final(self).wf(),
            match r {
                Ok(()) => old(self).ledger_docs_for(*key).len() == 1 && if old(self).rows_for(
                    *key,
                ).len() == 0 {
                    *final(self) == *old(self)
                } else {
                    &&& final(self).ledger_docs_for(*key).len() == 1
                    &&& {
                        let doc = final(self).ledger_docs_for(*key)[0];
                        ledger_matches_key(doc, *key) && is_min_ts(
                            old(self).rows_for(*key),
                            doc.from as int,
                        ) && is_max_ts(old(self).rows_for(*key), doc.to as int) && doc.last_updated
                            == now
                    }
                    &&& forall|k: SeriesKey|
                        !same_key(k, *key) ==> #[trigger] final(self).ledger_docs_for(k) == old(
                            self,
                        ).ledger_docs_for(k)
                    &&& forall|k: SeriesKey| #[trigger]
                        final(self).rows_for(k) == old(self).rows_for(k)
                    &&& forall|k: SeriesKey, from: int, to: int| #[trigger]
                        final(self).rows_in_window(k, from, to) == old(self).rows_in_window(
                            k,
                            from,
                            to,
                        )
                    &&& forall|n: Seq<char>|
                        final(self).has_collection(n) == old(self).has_collection(n)
                },
                Err(e) => *final(self) == *old(self) && old(self).ledger_docs_for(*key).len() != 1
                    && e == if old(self).ledger_docs_for(*key).len() == 0 {
                    SyncError::Update
                } else {
                    SyncError::DuplicateMetadata
                },
            },
    {
        let ci = match self.find_collection(&key.series_name) {
            None => {
                return Err(SyncError::Update);
            },
            Some(ci) => ci,
        };
        let ghost pred = |m: SeriesMetadata| ledger_matches_key(m, *key);
        let ghost md = self.collections@[ci as int].metadata@;
        let n = self.collections[ci].metadata.len();
        let mut i: usize = 0;
        let mut count: usize = 0;
        let mut mi: usize = 0;
        while i < n
            invariant
                self.wf(),
                ci < self.collections@.len(),
                md == self.collections@[ci as int].metadata@,
                n == md.len(),
                i <= n,
                count == md.take(i as int).filter(pred).len(),
                count > 0 ==> mi < i && pred(md[mi as int]) && md.take(i as int).filter(pred)[0]
                    == md[mi as int],
                pred == (|m: SeriesMetadata| ledger_matches_key(m, *key)),
            decreases n - i,
        {
            proof {
                assert(md.take(i + 1) =~= md.take(i as int).push(md[i as int]));
                lemma_filter_push(md.take(i as int), pred, md[i as int]);
            }
            if self.collections[ci].metadata[i].matches_key(key) {
                if count == 0 {
                    mi = i;
                }
                count = count + 1;
            }
            i = i + 1;
        }
        proof {
            assert(md.take(n as int) =~= md);
            assert(self.ledger_docs_for(*key) == md.filter(pred));
        }
        if count == 0 {
            return Err(SyncError::Update);
        }
        if count > 1 {
            return Err(SyncError::DuplicateMetadata);
        }
        // Scan the stored rows for the key's true min and max timestamp.
        let ghost rpred = |row: SeriesRow| row_matches_key(row, *key);
        let ghost rws = self.collections@[ci as int].rows@;
        let rn = self.collections[ci].rows.len();
        let mut j: usize = 0;
        let mut have = false;
        let mut mn: i64 = 0;
        let mut mx: i64 = 0;
        while j < rn
            invariant
                self.wf(),
                ci < self.collections@.len(),
                rws == self.collections@[ci as int].rows@,
                rn == rws.len(),
                j <= rn,
                !have ==> forall|x: int| 0 <= x < j ==> !rpred(#[trigger] rws[x]),
                have ==> exists|x: int|
                    0 <= x < j && rpred(#[trigger] rws[x]) && rws[x].datetime == mn,
                have ==> exists|x: int|
                    0 <= x < j && rpred(#[trigger] rws[x]) && rws[x].datetime == mx,
                have ==> forall|x: int|
                    0 <= x < j && rpred(#[trigger] rws[x]) ==> mn <= rws[x].datetime <= mx,
                rpred == (|row: SeriesRow| row_matches_key(row, *key)),
            decreases rn - j,
        {
            if self.collections[ci].rows[j].metadata.matches_key(key) {
                let t = self.collections[ci].rows[j].datetime;
                if !have {
                    have = true;
                    mn = t;
                    mx = t;
                } else {
                    if t < mn {
                        mn = t;
                    }
                    if t > mx {
                        mx = t;
                    }
                }
            }
            j = j + 1;
        }
        let ghost stored = old(self).rows_for(*key);
        proof {
            assert(stored == rws.filter(rpred));
            lemma_filter_elements(rws, rpred);
            if !have {
                if stored.len() > 0 {
                    assert(rws.contains(stored[0]) && rpred(stored[0]));
                    let x = choose|x: int| 0 <= x < rws.len() && rws[x] == stored[0];
                    assert(false);
                }
            } else {
                // The scan's witnesses appear in the filtered sequence, and
                // every filtered element is bounded by the scan's min and max.
                let xm = choose|x: int|
                    0 <= x < rws.len() && rpred(#[trigger] rws[x]) && rws[x].datetime == mn;
                rws.lemma_filter_contains(rpred, xm);
                let xx = choose|x: int|
                    0 <= x < rws.len() && rpred(#[trigger] rws[x]) && rws[x].datetime == mx;
                rws.lemma_filter_contains(rpred, xx);
                assert(is_min_ts(stored, mn as int) && is_max_ts(stored, mx as int)) by {
                    assert(stored.contains(rws[xm]));
                    let a = choose|a: int| 0 <= a < stored.len() && stored[a] == rws[xm];
                    assert(stored[a].datetime == mn);
                    assert(stored.contains(rws[xx]));
                    let b = choose|b: int| 0 <= b < stored.len() && stored[b] == rws[xx];
                    assert(stored[b].datetime == mx);
                    assert forall|x: int| 0 <= x < stored.len() implies mn <= (
                    #[trigger] stored[x]).datetime <= mx by {
                        assert(rws.contains(stored[x]) && rpred(stored[x]));
                        let y = choose|y: int| 0 <= y < rws.len() && rws[y] == stored[x];
                    }
                }
            }
        }
        if !have {
            return Ok(());
        }
        // One matching entry, rows present: update it in place.
        let mut c = self.collections.remove(ci);
        let old_doc = c.metadata.remove(mi);
        let new_doc = SeriesMetadata {
            ticker: old_doc.ticker,
            exchange: old_doc.exchange,
            series_name: old_doc.series_name,
            source: old_doc.source,
            from: mn,
            to: mx,
            last_updated: now,
        };
        c.metadata.insert(mi, new_doc);
        self.collections.insert(ci, c);
        proof {
            let ghost doc0 = md[mi as int];
            let ghost doc1 = c.metadata@[mi as int];
            assert(c.metadata@ =~= md.update(mi as int, doc1));
            assert(self.collections@ =~= old(self).collections@.update(ci as int, c));
            assert(ledger_matches_key(doc1, *key));
            assert(valid_ts(mn as int) && valid_ts(mx as int)) by {
                let xm = choose|x: int|
                    0 <= x < rws.len() && rpred(#[trigger] rws[x]) && rws[x].datetime == mn;
                let xx = choose|x: int|
                    0 <= x < rws.len() && rpred(#[trigger] rws[x]) && rws[x].datetime == mx;
                assert(old(self).collections@[ci as int].wf());
            }
            assert(c.wf()) by {
                assert(forall|x: int|
                    0 <= x < c.metadata@.len() && x != mi ==> c.metadata@[x] == md[x]);
                assert(old(self).collections@[ci as int].wf());
            }
            lemma_update_one_collection(*old(self), *self, ci as int);
            let nm = old(self).collections@[ci as int].name@;
            // The filters around the updated entry: only the entry itself
            // matches the key, so the prefix and suffix filter to nothing.
            lemma_filter_around(md, mi as int, pred);
            lemma_filter_singleton(doc0, pred);
            let pre = md.subrange(0, mi as int);
            let post = md.subrange(mi as int + 1, md.len() as int);
            assert(pre.filter(pred).len() == 0 && post.filter(pred).len() == 0);
            assert(pre.filter(pred) =~= Seq::<SeriesMetadata>::empty());
            assert(post.filter(pred) =~= Seq::<SeriesMetadata>::empty());
            lemma_filter_around(c.metadata@, mi as int, pred);
            assert(c.metadata@.subrange(0, mi as int) =~= pre);
            assert(c.metadata@.subrange(mi as int + 1, c.metadata@.len() as int) =~= post);
            lemma_filter_singleton(doc1, pred);
            assert(self.ledger_docs_for(*key) =~= seq![doc1]);
            assert forall|k: SeriesKey| !same_key(k, *key) implies
                #[trigger] self.ledger_docs_for(k) == old(self).ledger_docs_for(k) by {
                if k.series_name@ == nm {
                    let kpred = |m: SeriesMetadata| ledger_matches_key(m, k);
                    lemma_filter_around(md, mi as int, kpred);
                    lemma_filter_around(c.metadata@, mi as int, kpred);
                    assert(c.metadata@.subrange(0, mi as int) =~= pre);
                    assert(c.metadata@.subrange(mi as int + 1, c.metadata@.len() as int) =~= post);
                    lemma_filter_singleton(doc0, kpred);
                    lemma_filter_singleton(doc1, kpred);
                    assert(!kpred(doc0) && !kpred(doc1));
                }
            }
        }
        Ok(())
    }
}

/// Inserts a row into a timestamp-sorted vector, keeping it sorted.
fn insert_row_sorted(out: &mut Vec<SeriesRow>, row: SeriesRow)
    requires
        sorted_by_ts(old(out)@),
    ensures
        sorted_by_ts(final(out)@),
        final(out)@.to_multiset() == old(out)@.to_multiset().insert(row),
        final(out)@.len() == old(out)@.len() + 1,
{
    let n = out.len();
    let mut p: usize = 0;
    while p < n && out[p].datetime <= row.datetime
        invariant
            p <= n,
            n == out@.len(),
            out@ == old(out)@,
            forall|j: int| 0 <= j < p ==> (#[trigger] out@[j]).datetime <= row.datetime,
        decreases n - p,
    {
        p = p + 1;
    }
    out.insert(p, row);
    proof {
        vstd::seq_lib::to_multiset_insert(old(out)@, p as int, row);
        assert forall|i: int, j: int| 0 <= i <= j < out@.len() implies out@[i].datetime
            <= out@[j].datetime by {
            if i >= p as int + 1 {
                assert(out@[i] == old(out)@[i - 1] && out@[j] == old(out)@[j - 1]);
            } else if i == p as int {
                if j > p as int {
                    assert(out@[j] == old(out)@[j - 1]);
                    if p < old(out)@.len() {
                        assert(old(out)@[p as int].datetime > row.datetime);
                        assert(old(out)@[p as int].datetime <= old(out)@[j - 1].datetime);
                    }
                }
            } else {
                assert(out@[i] == old(out)@[i]);
                if j > p as int {
                    assert(out@[j] == old(out)@[j - 1]);
                } else if j == p as int {
                    assert(out@[j] == row);
                } else {
                    assert(out@[j] == old(out)@[j]);
                }
            }
        }
    }
}

impl SeriesStore {
    /// Reads the rows stored for a series key whose timestamps lie in the
    /// inclusive window `[from, to]`, ordered ascending by timestamp.  A pure
    /// query: it consults neither the ledger nor the vendor, and reading a
    /// series that was never provisioned simply yields nothing.
    pub fn read_series(&self, key: &SeriesKey, from: i64, to: i64) -> (r: Vec<SeriesRow>)
        requires
            self.wf(),
        ensures
            sorted_by_ts(r@),
            r@.to_multiset() == self.rows_in_window(*key, from as int, to as int).to_multiset(),
    {
        let mut r: Vec<SeriesRow> = Vec::new();
        let ci = match self.find_collection(&key.series_name) {
            None => {
                return r;
            },
            Some(ci) => ci,
        };
        let ghost pred = |row: SeriesRow| row_matches_key(row, *key) && from as int <= row.datetime
            <= to as int;
        let ghost rws = self.collections@[ci as int].rows@;
        proof {
            assert(rws.take(0).filter(pred) =~= Seq::<SeriesRow>::empty());
            assert(r@.to_multiset() == rws.take(0).filter(pred).to_multiset());
        }
        let n = self.collections[ci].rows.len();
        let mut i: usize = 0;
        while i < n
            invariant
                self.wf(),
                ci < self.collections@.len(),
                rws == self.collections@[ci as int].rows@,
                n == rws.len(),
                i <= n,
                sorted_by_ts(r@),
                r@.to_multiset() == rws.take(i as int).filter(pred).to_multiset(),
                pred == (|row: SeriesRow| row_matches_key(row, *key) && from as int <= row.datetime
                    <= to as int),
            decreases n - i,
        {
            proof {
                assert(rws.take(i + 1) =~= rws.take(i as int).push(rws[i as int]));
                lemma_filter_push(rws.take(i as int), pred, rws[i as int]);
                vstd::seq_lib::to_multiset_build(rws.take(i as int).filter(pred), rws[i as int]);
            }
            let row = &self.collections[ci].rows[i];
            if row.metadata.matches_key(key) && from <= row.datetime && row.datetime <= to {
                insert_row_sorted(&mut r, row.clone());
            }
            i = i + 1;
        }
        proof {
            assert(rws.take(n as int) =~= rws);
            assert(self.rows_in_window(*key, from as int, to as int) == rws.filter(pred));
        }
        r
    }
}

} // verus!
