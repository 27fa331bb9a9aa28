use crate::change_request::{ChangeRequest, ChangeRequestView};
use crate::merge::{
    copy_of, distinct_ids, lemma_merge, lemma_upsert, merge, merge_spec, upsert, upsert_spec,
};
use crate::timestamp::{epoch_anchor, is_fresh, Timestamp};
use vstd::prelude::*;

verus! {

/// The snapshot that is kept between syncs: the records gathered so far, and the moment of
/// the last sync, from which the next query starts.
#[derive(Debug, PartialEq)]
pub struct Cache {
    pub change_requests: Vec<ChangeRequest>,
    pub from: Timestamp,
}

/// What a `Cache` holds, as mathematical values.
pub struct CacheView {
    pub change_requests: Seq<ChangeRequestView>,
    pub from: Timestamp,
}

impl View for Cache {
    type V = CacheView;

    open spec fn view(&self) -> CacheView {
        CacheView { change_requests: self.change_requests.deep_view(), from: self.from }
    }
}

impl DeepView for Cache {
    type V = CacheView;

    open spec fn deep_view(&self) -> CacheView {
        self@
    }
}

impl Clone for Cache {
    fn clone(&self) -> (copy: Self)
        ensures
            copy@ == self@,
    {
        Cache { change_requests: copy_of(&self.change_requests), from: self.from }
    }
}

impl CacheView {
    /// A snapshot is well formed where no two of its records have the same id.
    pub open spec fn wf(self) -> bool {
        distinct_ids(self.change_requests)
    }
}

/// What reading the store gave.
#[derive(Debug, PartialEq)]
pub enum CacheRead {
    /// Nothing was stored yet.
    Absent,
    /// Something was stored that is no snapshot.
    Corrupt,
    /// The stored snapshot.
    Snapshot(Cache),
}

/// What a `CacheRead` holds, as mathematical values.
pub enum CacheReadView {
    Absent,
    Corrupt,
    Snapshot(CacheView),
}

impl View for CacheRead {
    type V = CacheReadView;

    open spec fn view(&self) -> CacheReadView {
        match self {
            CacheRead::Absent => CacheReadView::Absent,
            CacheRead::Corrupt => CacheReadView::Corrupt,
            CacheRead::Snapshot(cache) => CacheReadView::Snapshot(cache@),
        }
    }
}

impl DeepView for CacheRead {
    type V = CacheReadView;

    open spec fn deep_view(&self) -> CacheReadView {
        self@
    }
}

impl CacheReadView {
    /// The snapshot to go on from. A corrupt store counts as an empty one.
    pub open spec fn snapshot(self) -> Option<CacheView> {
        match self {
            CacheReadView::Snapshot(cache) => Some(cache),
            _ => None,
        }
    }
}

/// The records to merge into: those of the snapshot, or none on a cold start.
pub open spec fn previous_records(snapshot: Option<CacheView>) -> Seq<ChangeRequestView> {
    match snapshot {
        Some(cache) => cache.change_requests,
        None => Seq::empty(),
    }
}

/// Where the query window starts: at the last sync, or at the start of history on a cold
/// start.
pub open spec fn window_start(snapshot: Option<CacheView>) -> Timestamp {
    match snapshot {
        Some(cache) => cache.from,
        None => epoch_anchor(),
    }
}

/// A snapshot that can be answered from at `now`, without a query.
pub open spec fn is_usable(snapshot: Option<CacheView>, now: Timestamp) -> bool {
    snapshot matches Some(cache) && is_fresh(cache.from, now)
}

impl Cache {
    /// A snapshot of the records, synced at `from`. A record whose id stands twice is kept
    /// once, as it stands last, in the place where the id stands first; records without
    /// such an id stay as they are.
    pub fn new(change_requests: Vec<ChangeRequest>, from: Timestamp) -> (cache: Cache)
        ensures
            cache@ == (CacheView {
                change_requests: merge_spec(change_requests.deep_view(), Seq::empty()),
                from,
            }),
            cache@.wf(),
            distinct_ids(change_requests.deep_view()) ==> cache@.change_requests
                == change_requests.deep_view(),
    {
        proof {
            lemma_merge(change_requests.deep_view(), Seq::empty());
        }
        let nothing: Vec<ChangeRequest> = Vec::new();
        assert(nothing.deep_view() =~= Seq::empty());
        Cache { change_requests: merge(change_requests, nothing), from }
    }

    /// Whether no two records of the snapshot have the same id.
    pub fn is_well_formed(&self) -> (well_formed: bool)
        ensures
            well_formed == self@.wf(),
    {
        let records = &self.change_requests;
        let ghost views = records.deep_view();
        let n = records.len();
        for j in 0..n
            invariant
                n == records.len(),
                views == records.deep_view(),
                views == self@.change_requests,
                forall|a: int, b: int| 0 <= a < b < j ==> views[a].id != views[b].id,
        {
            for i in 0..j
                invariant
                    j < n == records.len(),
                    views == records.deep_view(),
                    views == self@.change_requests,
                    forall|a: int, b: int| 0 <= a < b < j ==> views[a].id != views[b].id,
                    forall|a: int| 0 <= a < i ==> views[a].id != views[j as int].id,
            {
                assert(views[i as int].id == records[i as int].id);
                assert(views[j as int].id == records[j as int].id);
                if records[i].id == records[j].id {
                    return false;
                }
            }
        }
        true
    }

    /// Puts `record` into the snapshot: in the place of the record that has its id, where
    /// there is one, and at the end otherwise. The moment of the last sync stays.
    pub fn record(&mut self, record: ChangeRequest)
        ensures
            final(self)@ == (CacheView {
                change_requests: upsert_spec(old(self)@.change_requests, record@),
                from: old(self).from,
            }),
            old(self)@.wf() ==> final(self)@.wf(),
    {
        proof {
            lemma_upsert(self@.change_requests, record@);
        }
        upsert(&mut self.change_requests, record);
    }

    /// Whether the snapshot is still fresh at `now`.
    pub fn is_fresh(&self, now: Timestamp) -> (fresh: bool)
        ensures
            fresh == is_fresh(self.from, now),
    {
        self.from.fresh_at(now)
    }
}

impl CacheRead {
    /// The snapshot to go on from. A corrupt store counts as an empty one.
    pub fn snapshot(self) -> (snapshot: Option<Cache>)
        ensures
            snapshot.deep_view() == self@.snapshot(),
    {
        match self {
            CacheRead::Snapshot(cache) => Some(cache),
            _ => None,
        }
    }
}

} // verus!
