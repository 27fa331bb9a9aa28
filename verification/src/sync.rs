use crate::cache::{
    is_usable, previous_records, window_start, Cache, CacheRead, CacheReadView, CacheView,
};
use crate::change_request::{ChangeRequest, ChangeRequestView};
use crate::gitlab_client::{
    list_discussions_spec, list_merge_requests_spec, GitlabClient, GitlabClientView,
    MergeRequest, MergeRequestDiscussion, MergeRequestDiscussionView, MergeRequestView, Request,
    RequestView,
};
use crate::merge::{copy_of, distinct_ids, find, found, lemma_merge, merge, merge_spec};
use crate::timestamp::{
    is_before, is_fresh, is_plain, utc_text, Timestamp, EPOCH_ANCHOR_SECS,
};
use vstd::prelude::*;

verus! {

/// Why a sync ended without a result.
#[derive(Debug, Clone, Copy, PartialEq, Eq, Structural)]
pub enum SyncError {
    /// The remote source did not answer a query, or not with what was asked for.
    RemoteQueryFailed,
    /// The moment from which to query is no plain moment.
    InvalidTimestamp,
    /// An event came that the sync was not waiting for.
    UnexpectedEvent,
}

/// Where a sync stands.
#[derive(Debug, PartialEq)]
pub enum SyncState {
    /// Nothing was done yet: the store and the clock are to be read.
    Start,
    /// The merge requests of the window were asked for.
    AwaitingMergeRequests { previous: Vec<ChangeRequest> },
    /// The discussions of each merge request were asked for.
    AwaitingDiscussions { previous: Vec<ChangeRequest>, merge_requests: Vec<MergeRequest> },
    /// The new snapshot was handed out to be stored.
    AwaitingStore { merged: Vec<ChangeRequest> },
    /// The sync is over.
    Done,
}

/// What happened outside since the last step.
#[derive(Debug, PartialEq)]
pub enum SyncEvent {
    /// The store was read, and the clock, at `now`.
    CacheRead { cache: CacheRead, now: Timestamp },
    /// The remote source listed the merge requests.
    MergeRequests(Vec<MergeRequest>),
    /// The remote source listed the discussions, `discussions[i]` being those asked for by
    /// the request `i`; the last answer came at `now`.
    Discussions { discussions: Vec<Vec<MergeRequestDiscussion>>, now: Timestamp },
    /// The snapshot was stored.
    Stored,
    /// The snapshot could not be stored.
    StoreFailed,
    /// A query failed.
    RemoteFailed,
}

/// What is to be done outside next.
#[derive(Debug, PartialEq)]
pub enum SyncAction {
    /// Send the request; it lists merge requests.
    Query(Request),
    /// Send the requests, in any order or all at once; each lists the discussions of one
    /// merge request.
    QueryEach(Vec<Request>),
    /// Store the snapshot in place of the one that is there.
    Store(Cache),
    /// Hand the records to the caller.
    Return(Vec<ChangeRequest>),
    /// Hand the records to the caller, and tell that they could not be stored.
    ReturnUnsaved(Vec<ChangeRequest>),
    /// Tell the caller that the sync failed. Nothing was stored.
    Fail(SyncError),
}

/// What a `SyncState` holds, as mathematical values.
pub enum SyncStateView {
    Start,
    AwaitingMergeRequests { previous: Seq<ChangeRequestView> },
    AwaitingDiscussions {
        previous: Seq<ChangeRequestView>,
        merge_requests: Seq<MergeRequestView>,
    },
    AwaitingStore { merged: Seq<ChangeRequestView> },
    Done,
}

/// What a `SyncEvent` holds, as mathematical values.
pub enum SyncEventView {
    CacheRead { cache: CacheReadView, now: Timestamp },
    MergeRequests(Seq<MergeRequestView>),
    Discussions { discussions: Seq<Seq<MergeRequestDiscussionView>>, now: Timestamp },
    Stored,
    StoreFailed,
    RemoteFailed,
}

/// What a `SyncAction` holds, as mathematical values.
pub enum SyncActionView {
    Query(RequestView),
    QueryEach(Seq<RequestView>),
    Store(CacheView),
    Return(Seq<ChangeRequestView>),
    ReturnUnsaved(Seq<ChangeRequestView>),
    Fail(SyncError),
}

impl View for SyncState {
    type V = SyncStateView;

    open spec fn view(&self) -> SyncStateView {
        match self {
            SyncState::Start => SyncStateView::Start,
            SyncState::AwaitingMergeRequests { previous } => SyncStateView::AwaitingMergeRequests {
                previous: previous.deep_view(),
            },
            SyncState::AwaitingDiscussions {
                previous,
                merge_requests,
            } => SyncStateView::AwaitingDiscussions {
                previous: previous.deep_view(),
                merge_requests: merge_requests.deep_view(),
            },
            SyncState::AwaitingStore { merged } => SyncStateView::AwaitingStore {
                merged: merged.deep_view(),
            },
            SyncState::Done => SyncStateView::Done,
        }
    }
}

impl View for SyncEvent {
    type V = SyncEventView;

    open spec fn view(&self) -> SyncEventView {
        match self {
            SyncEvent::CacheRead { cache, now } => SyncEventView::CacheRead {
                cache: cache@,
                now: *now,
            },
            SyncEvent::MergeRequests(merge_requests) => SyncEventView::MergeRequests(
                merge_requests.deep_view(),
            ),
            SyncEvent::Discussions { discussions, now } => SyncEventView::Discussions {
                discussions: discussions.deep_view(),
                now: *now,
            },
            SyncEvent::Stored => SyncEventView::Stored,
            SyncEvent::StoreFailed => SyncEventView::StoreFailed,
            SyncEvent::RemoteFailed => SyncEventView::RemoteFailed,
        }
    }
}

impl View for SyncAction {
    type V = SyncActionView;

    open spec fn view(&self) -> SyncActionView {
        match self {
            SyncAction::Query(request) => SyncActionView::Query(request@),
            SyncAction::QueryEach(requests) => SyncActionView::QueryEach(requests.deep_view()),
            SyncAction::Store(cache) => SyncActionView::Store(cache@),
            SyncAction::Return(records) => SyncActionView::Return(records.deep_view()),
            SyncAction::ReturnUnsaved(records) => SyncActionView::ReturnUnsaved(
                records.deep_view(),
            ),
            SyncAction::Fail(error) => SyncActionView::Fail(*error),
        }
    }
}

/// The requests for the discussions of the merge requests, one for each, in their order.
pub open spec fn list_each_spec(
    client: GitlabClientView,
    merge_requests: Seq<MergeRequestView>,
) -> Seq<RequestView> {
    Seq::new(merge_requests.len(), |i: int| list_discussions_spec(client, merge_requests[i].iid))
}

/// The first step of a sync, after the store and the clock were read.
///
/// A fresh snapshot is answered from: its records are returned as they are, and nothing is
/// asked of the remote source. Otherwise the merge requests are asked for that were updated
/// after the last sync, or after the start of history where there is no snapshot. The sync
/// fails where the last sync is no plain moment: the query could not name it.
pub open spec fn start_spec(
    client: GitlabClientView,
    cache: CacheReadView,
    now: Timestamp,
) -> (SyncStateView, SyncActionView) {
    let snapshot = cache.snapshot();
    if is_usable(snapshot, now) {
        (SyncStateView::Done, SyncActionView::Return(previous_records(snapshot)))
    } else {
        let from = window_start(snapshot);
        if is_plain(from) {
            (
                SyncStateView::AwaitingMergeRequests { previous: previous_records(snapshot) },
                SyncActionView::Query(
                    list_merge_requests_spec(
                        client,
                        utc_text(from.secs as int, from.nanos as int)->0,
                    ),
                ),
            )
        } else {
            (SyncStateView::Done, SyncActionView::Fail(SyncError::InvalidTimestamp))
        }
    }
}

/// The step after the discussions came in: what they hold is merged into the previous
/// records, and the snapshot to store is stamped with `now`.
pub open spec fn finish_spec(
    previous: Seq<ChangeRequestView>,
    merge_requests: Seq<MergeRequestView>,
    discussions: Seq<Seq<MergeRequestDiscussionView>>,
    now: Timestamp,
) -> (SyncStateView, SyncActionView) {
    if discussions.len() == merge_requests.len() {
        let merged = merge_spec(previous, found(merge_requests, discussions));
        (
            SyncStateView::AwaitingStore { merged },
            SyncActionView::Store(CacheView { change_requests: merged, from: now }),
        )
    } else {
        (SyncStateView::Done, SyncActionView::Fail(SyncError::UnexpectedEvent))
    }
}

/// One step of a sync: from where it stands and what happened outside, to where it stands
/// next and what is to be done outside.
pub open spec fn step_spec(
    client: GitlabClientView,
    state: SyncStateView,
    event: SyncEventView,
) -> (SyncStateView, SyncActionView) {
    match (state, event) {
        (SyncStateView::Start, SyncEventView::CacheRead { cache, now }) => start_spec(
            client,
            cache,
            now,
        ),
        (
            SyncStateView::AwaitingMergeRequests { previous },
            SyncEventView::MergeRequests(merge_requests),
        ) => (
            SyncStateView::AwaitingDiscussions { previous, merge_requests },
            SyncActionView::QueryEach(list_each_spec(client, merge_requests)),
        ),
        (
            SyncStateView::AwaitingDiscussions { previous, merge_requests },
            SyncEventView::Discussions { discussions, now },
        ) => finish_spec(previous, merge_requests, discussions, now),
        (SyncStateView::AwaitingStore { merged }, SyncEventView::Stored) => (
            SyncStateView::Done,
            SyncActionView::Return(merged),
        ),
        (SyncStateView::AwaitingStore { merged }, SyncEventView::StoreFailed) => (
            SyncStateView::Done,
            SyncActionView::ReturnUnsaved(merged),
        ),
        (SyncStateView::AwaitingMergeRequests { .. }, SyncEventView::RemoteFailed) => (
            SyncStateView::Done,
            SyncActionView::Fail(SyncError::RemoteQueryFailed),
        ),
        (SyncStateView::AwaitingDiscussions { .. }, SyncEventView::RemoteFailed) => (
            SyncStateView::Done,
            SyncActionView::Fail(SyncError::RemoteQueryFailed),
        ),
        _ => (SyncStateView::Done, SyncActionView::Fail(SyncError::UnexpectedEvent)),
    }
}

/// What happens outside during one sync.
pub struct Round {
    /// The clock when the store is read.
    pub now: Timestamp,
    /// The merge requests that the remote source lists, or `None` where that query fails.
    pub merge_requests: Option<Seq<MergeRequestView>>,
    /// The discussions that it lists, or `None` where one of those queries fails.
    pub discussions: Option<Seq<Seq<MergeRequestDiscussionView>>>,
    /// The clock when the last answer is in.
    pub done: Timestamp,
    /// Whether the store takes the new snapshot.
    pub stores: bool,
}

/// What reading a store that holds `store` gives.
pub open spec fn read_of(store: Option<CacheView>) -> CacheReadView {
    match store {
        Some(cache) => CacheReadView::Snapshot(cache),
        None => CacheReadView::Absent,
    }
}

/// The event that answers the query for the merge requests.
pub open spec fn merge_requests_event(round: Round) -> SyncEventView {
    match round.merge_requests {
        Some(merge_requests) => SyncEventView::MergeRequests(merge_requests),
        None => SyncEventView::RemoteFailed,
    }
}

/// The event that answers the queries for the discussions.
pub open spec fn discussions_event(round: Round) -> SyncEventView {
    match round.discussions {
        Some(discussions) => SyncEventView::Discussions { discussions, now: round.done },
        None => SyncEventView::RemoteFailed,
    }
}

/// The event that answers the request to store the snapshot.
pub open spec fn store_event(round: Round) -> SyncEventView {
    if round.stores {
        SyncEventView::Stored
    } else {
        SyncEventView::StoreFailed
    }
}

/// The actions of one sync, from its start to its end, in their order, where the store
/// reads `cache` and the outside behaves as `round` says.
pub open spec fn run(
    client: GitlabClientView,
    cache: CacheReadView,
    round: Round,
) -> Seq<SyncActionView> {
    let first = step_spec(
        client,
        SyncStateView::Start,
        SyncEventView::CacheRead { cache, now: round.now },
    );
    if first.0 is Done {
        seq![first.1]
    } else {
        let second = step_spec(client, first.0, merge_requests_event(round));
        if second.0 is Done {
            seq![first.1, second.1]
        } else {
            let third = step_spec(client, second.0, discussions_event(round));
            if third.0 is Done {
                seq![first.1, second.1, third.1]
            } else {
                let fourth = step_spec(client, third.0, store_event(round));
                seq![first.1, second.1, third.1, fourth.1]
            }
        }
    }
}

/// An action that asks something of the remote source.
pub open spec fn is_remote_call(action: SyncActionView) -> bool {
    action is Query || action is QueryEach
}

/// The records that the actions hand to the caller, if they end in that.
pub open spec fn returned(actions: Seq<SyncActionView>) -> Option<Seq<ChangeRequestView>> {
    if actions.len() == 0 {
        None
    } else {
        match actions.last() {
            SyncActionView::Return(records) => Some(records),
            SyncActionView::ReturnUnsaved(records) => Some(records),
            _ => None,
        }
    }
}

/// What the store holds after the actions were carried out: the snapshot that they stored,
/// or what it held before.
pub open spec fn store_after(
    store: Option<CacheView>,
    actions: Seq<SyncActionView>,
) -> Option<CacheView> {
    if actions.len() == 4 && actions[2] is Store && actions[3] is Return {
        Some(actions[2]->Store_0)
    } else {
        store
    }
}

/// What the store holds after the syncs `rounds`, one after the other, each reading what the
/// one before left.
pub open spec fn store_after_all(
    client: GitlabClientView,
    store: Option<CacheView>,
    rounds: Seq<Round>,
) -> Option<CacheView>
    decreases rounds.len(),
{
    if rounds.len() == 0 {
        store
    } else {
        let before = store_after_all(client, store, rounds.drop_last());
        store_after(before, run(client, read_of(before), rounds.last()))
    }
}

/// A sync that finds a fresh snapshot is over with its first step: it hands out the records
/// of the snapshot as they are, asks nothing of the remote source, and stores nothing.
pub proof fn lemma_fresh_run(client: GitlabClientView, cache: CacheReadView, round: Round)
    requires
        is_usable(cache.snapshot(), round.now),
    ensures
        run(client, cache, round) == seq![
            SyncActionView::Return(cache.snapshot()->0.change_requests),
        ],
        forall|k: int|
            0 <= k < run(client, cache, round).len() ==> !is_remote_call(
                #[trigger] run(client, cache, round)[k],
            ),
{
}

/// A sync that finds no fresh snapshot, and meets no failure, asks for the merge requests
/// updated after the start of its window, then for the discussions of each, stores the merged
/// records stamped with the moment at which the last answer was in, and hands them out.
pub proof fn lemma_stale_run(client: GitlabClientView, cache: CacheReadView, round: Round)
    requires
        !is_usable(cache.snapshot(), round.now),
        is_plain(window_start(cache.snapshot())),
        round.merge_requests is Some,
        round.discussions is Some,
        round.discussions->0.len() == round.merge_requests->0.len(),
    ensures
        ({
            let from = window_start(cache.snapshot());
            let merged = merge_spec(
                previous_records(cache.snapshot()),
                found(round.merge_requests->0, round.discussions->0),
            );
            run(client, cache, round) == seq![
                SyncActionView::Query(
                    list_merge_requests_spec(
                        client,
                        utc_text(from.secs as int, from.nanos as int)->0,
                    ),
                ),
                SyncActionView::QueryEach(list_each_spec(client, round.merge_requests->0)),
                SyncActionView::Store(CacheView { change_requests: merged, from: round.done }),
                if round.stores {
                    SyncActionView::Return(merged)
                } else {
                    SyncActionView::ReturnUnsaved(merged)
                },
            ]
        }),
{
}

/// A sync on which a query fails ends in `RemoteQueryFailed`: it hands out no records and
/// stores nothing.
pub proof fn lemma_failed_run(client: GitlabClientView, cache: CacheReadView, round: Round)
    requires
        !is_usable(cache.snapshot(), round.now),
        is_plain(window_start(cache.snapshot())),
        round.merge_requests is None || round.discussions is None,
    ensures
        run(client, cache, round).last() == SyncActionView::Fail(SyncError::RemoteQueryFailed),
        forall|k: int|
            0 <= k < run(client, cache, round).len() ==> !(#[trigger] run(
                client,
                cache,
                round,
            )[k] is Store),
        forall|store: Option<CacheView>| store_after(store, run(client, cache, round)) == store,
{
}

/// Two syncs within the TTL: where the first one returned records and the store took what
/// it was given, a second one that starts before the TTL of the stored snapshot has passed
/// asks nothing of the remote source and returns the same records.
pub proof fn lemma_second_run_within_ttl(
    client: GitlabClientView,
    store: Option<CacheView>,
    first: Round,
    second: Round,
)
    requires
        first.stores,
        returned(run(client, read_of(store), first)) is Some,
        store_after(store, run(client, read_of(store), first)) matches Some(snapshot) && is_fresh(
            snapshot.from,
            second.now,
        ),
    ensures
        ({
            let left = store_after(store, run(client, read_of(store), first));
            &&& returned(run(client, read_of(left), second)) == returned(
                run(client, read_of(store), first),
            )
            &&& run(client, read_of(left), second).len() == 1
            &&& !is_remote_call(run(client, read_of(left), second)[0])
        }),
{
    let actions = run(client, read_of(store), first);
    let left = store_after(store, actions);
    if is_usable(read_of(store).snapshot(), first.now) {
        lemma_fresh_run(client, read_of(store), first);
    }
    lemma_fresh_run(client, read_of(left), second);
}

/// A cold start: without a snapshot, the sync asks for the merge requests updated after the
/// start of history, merges what it finds into no records, and stamps the snapshot that it
/// stores with the moment at which the last answer was in.
pub proof fn lemma_cold_start(client: GitlabClientView, cache: CacheReadView, round: Round)
    requires
        cache.snapshot() is None,
        round.merge_requests is Some,
        round.discussions is Some,
        round.discussions->0.len() == round.merge_requests->0.len(),
    ensures
        run(client, cache, round)[0] == SyncActionView::Query(
            list_merge_requests_spec(client, utc_text(EPOCH_ANCHOR_SECS as int, 0)->0),
        ),
        run(client, cache, round)[2] == SyncActionView::Store(
            CacheView {
                change_requests: merge_spec(
                    Seq::empty(),
                    found(round.merge_requests->0, round.discussions->0),
                ),
                from: round.done,
            },
        ),
        store_after(None, run(client, cache, round)) matches Some(snapshot) ==> snapshot.from
            == round.done,
{
    lemma_stale_run(client, cache, round);
}

/// The records that a sync hands out, and the snapshot that it stores, hold no id twice,
/// where the snapshot that it read held none twice.
pub proof fn lemma_run_keeps_ids_distinct(
    client: GitlabClientView,
    store: Option<CacheView>,
    round: Round,
)
    requires
        store matches Some(snapshot) ==> snapshot.wf(),
    ensures
        returned(run(client, read_of(store), round)) matches Some(records) ==> distinct_ids(
            records,
        ),
        store_after(store, run(client, read_of(store), round)) matches Some(snapshot)
            ==> snapshot.wf(),
{
    let cache = read_of(store);
    if is_usable(cache.snapshot(), round.now) {
        lemma_fresh_run(client, cache, round);
    } else if is_plain(window_start(cache.snapshot())) && round.merge_requests is Some
        && round.discussions is Some {
        if round.discussions->0.len() == round.merge_requests->0.len() {
            lemma_stale_run(client, cache, round);
            lemma_merge(
                previous_records(cache.snapshot()),
                found(round.merge_requests->0, round.discussions->0),
            );
        }
    }
}

/// Whatever syncs run one after the other, from an empty store on, the store never holds a
/// snapshot with an id twice, and no sync hands out records with an id twice.
pub proof fn lemma_no_duplicate_ids(client: GitlabClientView, rounds: Seq<Round>)
    ensures
        store_after_all(client, None, rounds) matches Some(snapshot) ==> snapshot.wf(),
        forall|k: int|
            0 <= k < rounds.len() ==> (returned(
                run(
                    client,
                    read_of(store_after_all(client, None, rounds.take(k))),
                    #[trigger] rounds[k],
                ),
            ) matches Some(records) ==> distinct_ids(records)),
    decreases rounds.len(),
{
    if rounds.len() > 0 {
        let front = rounds.drop_last();
        lemma_no_duplicate_ids(client, front);
        let before = store_after_all(client, None, front);
        lemma_run_keeps_ids_distinct(client, before, rounds.last());
        assert forall|k: int| 0 <= k < rounds.len() implies (returned(
            run(
                client,
                read_of(store_after_all(client, None, rounds.take(k))),
                #[trigger] rounds[k],
            ),
        ) matches Some(records) ==> distinct_ids(records)) by {
            if k < rounds.len() - 1 {
                assert(rounds.take(k) =~= front.take(k));
                assert(rounds[k] == front[k]);
            } else {
                assert(rounds.take(k) =~= front);
            }
        }
    }
}

/// The moment of the last sync only moves forward: a snapshot that a sync stores in place
/// of another is stamped later than that one, where the clock did not run backwards while
/// the sync ran.
pub proof fn lemma_from_moves_forward(
    client: GitlabClientView,
    snapshot: CacheView,
    round: Round,
)
    requires
        !is_before(round.done, round.now),
        store_after(Some(snapshot), run(client, read_of(Some(snapshot)), round)) != Some(
            snapshot,
        ),
    ensures
        store_after(Some(snapshot), run(client, read_of(Some(snapshot)), round)) matches Some(
            stored,
        ) && is_before(snapshot.from, stored.from),
{
    let cache = read_of(Some(snapshot));
    if is_usable(cache.snapshot(), round.now) {
        lemma_fresh_run(client, cache, round);
    } else if is_plain(window_start(cache.snapshot())) && round.merge_requests is Some
        && round.discussions is Some {
        if round.discussions->0.len() == round.merge_requests->0.len() {
            lemma_stale_run(client, cache, round);
        }
    }
}

impl GitlabClient {
    /// The requests for the discussions of the merge requests, one for each, in their order.
    pub fn list_each(&self, merge_requests: &Vec<MergeRequest>) -> (requests: Vec<Request>)
        ensures
            requests.deep_view() == list_each_spec(self@, merge_requests.deep_view()),
    {
        let mut requests: Vec<Request> = Vec::new();
        for i in 0..merge_requests.len()
            invariant
                requests.len() == i,
                forall|k: int|
                    0 <= k < i ==> (#[trigger] requests[k])@ == list_discussions_spec(
                        self@,
                        merge_requests[k].iid,
                    ),
        {
            requests.push(self.list_discussions(merge_requests[i].iid));
        }
        assert(requests.deep_view() =~= list_each_spec(self@, merge_requests.deep_view()));
        requests
    }

    /// The first step of a sync, after the store and the clock were read.
    pub fn start(&self, cache: CacheRead, now: Timestamp) -> (next: (SyncState, SyncAction))
        ensures
            (next.0@, next.1@) == start_spec(self@, cache@, now),
    {
        let (previous, from) = match cache.snapshot() {
            Some(snapshot) => {
                if snapshot.is_fresh(now) {
                    return (SyncState::Done, SyncAction::Return(snapshot.change_requests));
                }
                (snapshot.change_requests, snapshot.from)
            },
            None => {
                let previous: Vec<ChangeRequest> = Vec::new();
                assert(previous.deep_view() =~= Seq::empty());
                (previous, Timestamp::anchor())
            },
        };
        if !from.is_plain() {
            return (SyncState::Done, SyncAction::Fail(SyncError::InvalidTimestamp));
        }
        let updated_after = from.to_text().unwrap();
        (
            SyncState::AwaitingMergeRequests { previous },
            SyncAction::Query(self.list_merge_requests(updated_after.as_str())),
        )
    }

    /// One step of a sync. The caller starts with `SyncState::Start` and the event
    /// `CacheRead`, does what the action says, and comes back with the event that tells how
    /// it went, until the action is `Return`, `ReturnUnsaved` or `Fail`.
    pub fn fetch(&self, state: SyncState, event: SyncEvent) -> (next: (SyncState, SyncAction))
        ensures
            (next.0@, next.1@) == step_spec(self@, state@, event@),
            next.1@ matches SyncActionView::Store(snapshot) ==> snapshot.wf(),
            next.0@ matches SyncStateView::AwaitingStore { merged } ==> distinct_ids(merged),
    {
        match (state, event) {
            (SyncState::Start, SyncEvent::CacheRead { cache, now }) => self.start(cache, now),
            (
                SyncState::AwaitingMergeRequests { previous },
                SyncEvent::MergeRequests(merge_requests),
            ) => {
                let requests = self.list_each(&merge_requests);
                (
                    SyncState::AwaitingDiscussions { previous, merge_requests },
                    SyncAction::QueryEach(requests),
                )
            },
            (
                SyncState::AwaitingDiscussions { previous, merge_requests },
                SyncEvent::Discussions { discussions, now },
            ) => {
                if discussions.len() == merge_requests.len() {
                    let merged = merge(previous, find(&merge_requests, &discussions));
                    let snapshot = Cache { change_requests: copy_of(&merged), from: now };
                    (SyncState::AwaitingStore { merged }, SyncAction::Store(snapshot))
                } else {
                    (SyncState::Done, SyncAction::Fail(SyncError::UnexpectedEvent))
                }
            },
            (SyncState::AwaitingStore { merged }, SyncEvent::Stored) => (
                SyncState::Done,
                SyncAction::Return(merged),
            ),
            (SyncState::AwaitingStore { merged }, SyncEvent::StoreFailed) => (
                SyncState::Done,
                SyncAction::ReturnUnsaved(merged),
            ),
            (SyncState::AwaitingMergeRequests { .. }, SyncEvent::RemoteFailed) => (
                SyncState::Done,
                SyncAction::Fail(SyncError::RemoteQueryFailed),
            ),
            (SyncState::AwaitingDiscussions { .. }, SyncEvent::RemoteFailed) => (
                SyncState::Done,
                SyncAction::Fail(SyncError::RemoteQueryFailed),
            ),
            _ => (SyncState::Done, SyncAction::Fail(SyncError::UnexpectedEvent)),
        }
    }
}

} // verus!
