use client::merge::REVIEWER_ID;
use client::{
    Author, Cache, CacheRead, ChangeRequest, GitlabClient, MergeRequest, MergeRequestDiscussion,
    MergeRequestNote, SyncAction, SyncError, SyncEvent, SyncState, Timestamp,
};

fn client() -> GitlabClient {
    GitlabClient::new("SECRET".to_string(), "group/project".to_string())
}

fn at(secs: i64) -> Timestamp {
    Timestamp { secs, nanos: 0 }
}

fn merge_request(iid: u64, username: &str) -> MergeRequest {
    MergeRequest {
        author: Author { id: 99, username: username.to_string() },
        iid,
        web_url: format!("https://gitlab.com/group/project/-/merge_requests/{}", iid),
    }
}

fn note(author: u64, id: u64, body: &str, system: bool) -> MergeRequestNote {
    MergeRequestNote {
        author: Author { id: author, username: "someone".to_string() },
        body: body.to_string(),
        id,
        system,
    }
}

fn thread(notes: Vec<MergeRequestNote>) -> MergeRequestDiscussion {
    MergeRequestDiscussion { notes }
}

fn record(id: u64, description: &str) -> ChangeRequest {
    ChangeRequest {
        author: "ahanot".to_string(),
        category: None,
        description: description.to_string(),
        id,
        merge_request_id: 1,
        sub_category: None,
        url: format!("https://gitlab.com/group/project/-/merge_requests/1/#note_{}", id),
    }
}

fn read(cache: CacheRead, now: Timestamp) -> SyncEvent {
    SyncEvent::CacheRead { cache, now }
}

/// Runs a sync to its end against a remote source that answers with what is given.
fn run(
    stored: &mut Option<Cache>,
    now: Timestamp,
    merge_requests: Vec<MergeRequest>,
    discussions: Vec<Vec<MergeRequestDiscussion>>,
    done: Timestamp,
) -> (Result<Vec<ChangeRequest>, SyncError>, usize) {
    let client = client();
    let cache = match stored.clone() {
        Some(snapshot) => CacheRead::Snapshot(snapshot),
        None => CacheRead::Absent,
    };
    let mut remote_calls = 0;
    let mut merge_requests = Some(merge_requests);
    let mut discussions = Some(discussions);
    let (mut state, mut action) = client.fetch(SyncState::Start, read(cache, now));
    loop {
        let event = match action {
            SyncAction::Query(_) => {
                remote_calls += 1;
                SyncEvent::MergeRequests(merge_requests.take().unwrap())
            }
            SyncAction::QueryEach(requests) => {
                remote_calls += requests.len();
                SyncEvent::Discussions { discussions: discussions.take().unwrap(), now: done }
            }
            SyncAction::Store(snapshot) => {
                *stored = Some(snapshot);
                SyncEvent::Stored
            }
            SyncAction::Return(records) => {
                assert_eq!(state, SyncState::Done);
                return (Ok(records), remote_calls);
            }
            SyncAction::ReturnUnsaved(records) => return (Ok(records), remote_calls),
            SyncAction::Fail(error) => {
                assert_eq!(state, SyncState::Done);
                return (Err(error), remote_calls);
            }
        };
        (state, action) = client.fetch(state, event);
    }
}

#[test]
fn a_cold_start_queries_from_the_anchor() {
    let (state, action) = client().fetch(SyncState::Start, read(CacheRead::Absent, at(1_800_000_000)));
    assert_eq!(state, SyncState::AwaitingMergeRequests { previous: vec![] });
    assert_eq!(
        action,
        SyncAction::Query(client().list_merge_requests("2024-10-28 12:00:00 UTC"))
    );
    match action {
        SyncAction::Query(request) => {
            assert_eq!(
                request.url,
                "https://gitlab.com/api/v4/projects/group%2Fproject/merge_requests"
            );
            assert_eq!(
                request.query,
                vec![
                    ("per_page".to_string(), "100".to_string()),
                    ("updated_after".to_string(), "2024-10-28 12:00:00 UTC".to_string()),
                ]
            );
        }
        other => panic!("{:?}", other),
    }
}

#[test]
fn a_cold_start_stamps_the_snapshot_with_the_moment_of_completion() {
    let mut stored = None;
    let (records, remote_calls) = run(
        &mut stored,
        at(1_800_000_000),
        vec![merge_request(5, "ahanot")],
        vec![vec![thread(vec![note(REVIEWER_ID, 50, "Fix it", false)])]],
        at(1_800_000_042),
    );
    let records = records.unwrap();
    assert_eq!(remote_calls, 2);
    assert_eq!(records.len(), 1);
    assert_eq!(stored, Some(Cache { change_requests: records, from: at(1_800_000_042) }));
}

#[test]
fn a_corrupt_store_counts_as_a_cold_start() {
    let now = at(1_800_000_000);
    assert_eq!(
        client().fetch(SyncState::Start, read(CacheRead::Corrupt, now)),
        client().fetch(SyncState::Start, read(CacheRead::Absent, now))
    );
    assert_eq!(CacheRead::Corrupt.snapshot(), None);
    assert_eq!(CacheRead::Absent.snapshot(), None);
}

#[test]
fn a_fresh_snapshot_is_returned_as_it_is() {
    let records = vec![record(2, "two"), record(1, "one"), record(2, "twice")];
    let snapshot = Cache { change_requests: records.clone(), from: at(1_800_000_000) };
    for now in [at(1_800_000_000), at(1_800_000_299), at(1_700_000_000)] {
        let (state, action) =
            client().fetch(SyncState::Start, read(CacheRead::Snapshot(snapshot.clone()), now));
        assert_eq!(state, SyncState::Done);
        assert_eq!(action, SyncAction::Return(records.clone()));
    }
}

#[test]
fn a_stale_snapshot_is_queried_from_its_moment() {
    let records = vec![record(2, "two"), record(1, "one")];
    let snapshot = Cache { change_requests: records.clone(), from: at(1_800_000_000) };
    for now in [at(1_800_000_300), at(1_800_000_301), at(1_900_000_000)] {
        let (state, action) =
            client().fetch(SyncState::Start, read(CacheRead::Snapshot(snapshot.clone()), now));
        assert_eq!(state, SyncState::AwaitingMergeRequests { previous: records.clone() });
        assert_eq!(
            action,
            SyncAction::Query(client().list_merge_requests("2027-01-15 08:00:00 UTC"))
        );
    }
}

#[test]
fn a_second_fetch_within_the_ttl_asks_nothing() {
    let mut stored = None;
    let (first, first_calls) = run(
        &mut stored,
        at(1_800_000_000),
        vec![merge_request(5, "ahanot"), merge_request(6, "cpagnoux")],
        vec![
            vec![thread(vec![note(REVIEWER_ID, 50, "Fix it  \n#domain/edge-case", false)])],
            vec![thread(vec![note(REVIEWER_ID, 60, "Typo", false)])],
        ],
        at(1_800_000_010),
    );
    assert_eq!(first_calls, 3);
    let (second, second_calls) =
        run(&mut stored, at(1_800_000_309), vec![merge_request(7, "x")], vec![vec![]], at(0));
    assert_eq!(second_calls, 0);
    assert_eq!(second, first);
    assert_eq!(stored.as_ref().unwrap().from, at(1_800_000_010));
    let (third, third_calls) =
        run(&mut stored, at(1_800_000_310), vec![], vec![], at(1_800_000_311));
    assert_eq!(third_calls, 1);
    assert_eq!(third, first);
    assert_eq!(stored.as_ref().unwrap().from, at(1_800_000_311));
}

#[test]
fn the_merge_requests_are_asked_for_their_discussions() {
    let merge_requests = vec![merge_request(5, "ahanot"), merge_request(6, "cpagnoux")];
    let (state, action) = client().fetch(
        SyncState::AwaitingMergeRequests { previous: vec![record(1, "one")] },
        SyncEvent::MergeRequests(merge_requests.clone()),
    );
    assert_eq!(
        state,
        SyncState::AwaitingDiscussions {
            previous: vec![record(1, "one")],
            merge_requests: merge_requests.clone()
        }
    );
    assert_eq!(
        action,
        SyncAction::QueryEach(vec![client().list_discussions(5), client().list_discussions(6)])
    );
}

#[test]
fn the_discussions_are_merged_into_the_previous_records() {
    let (state, action) = client().fetch(
        SyncState::AwaitingDiscussions {
            previous: vec![record(1, "one"), record(50, "old")],
            merge_requests: vec![merge_request(5, "ahanot")],
        },
        SyncEvent::Discussions {
            discussions: vec![vec![
                thread(vec![note(REVIEWER_ID, 50, "Fix off-by-one  \n#domain/edge-case", false)]),
                thread(vec![note(REVIEWER_ID, 51, "No tag here", false)]),
                thread(vec![
                    note(REVIEWER_ID, 52, "added 1 commit", true),
                    note(REVIEWER_ID, 53, "Late  \n#domain/edge-case", false),
                ]),
                thread(vec![note(7, 54, "Not the one  \n#domain/edge-case", false)]),
            ]],
            now: at(1_800_000_042),
        },
    );
    let merged = vec![
        record(1, "one"),
        ChangeRequest {
            author: "ahanot".to_string(),
            category: Some("domain".to_string()),
            description: "Fix off-by-one".to_string(),
            id: 50,
            merge_request_id: 5,
            sub_category: Some("edge-case".to_string()),
            url: "https://gitlab.com/group/project/-/merge_requests/5/#note_50".to_string(),
        },
        ChangeRequest {
            author: "ahanot".to_string(),
            category: None,
            description: "No tag here".to_string(),
            id: 51,
            merge_request_id: 5,
            sub_category: None,
            url: "https://gitlab.com/group/project/-/merge_requests/5/#note_51".to_string(),
        },
    ];
    assert_eq!(state, SyncState::AwaitingStore { merged: merged.clone() });
    assert_eq!(
        action,
        SyncAction::Store(Cache { change_requests: merged, from: at(1_800_000_042) })
    );
}

#[test]
fn the_records_are_returned_once_the_snapshot_is_stored() {
    assert_eq!(
        client().fetch(SyncState::AwaitingStore { merged: vec![record(1, "one")] }, SyncEvent::Stored),
        (SyncState::Done, SyncAction::Return(vec![record(1, "one")]))
    );
}

#[test]
fn the_records_are_returned_though_the_store_failed() {
    assert_eq!(
        client().fetch(
            SyncState::AwaitingStore { merged: vec![record(1, "one")] },
            SyncEvent::StoreFailed
        ),
        (SyncState::Done, SyncAction::ReturnUnsaved(vec![record(1, "one")]))
    );
}

#[test]
fn a_failed_query_ends_the_sync() {
    let failed = (SyncState::Done, SyncAction::Fail(SyncError::RemoteQueryFailed));
    assert_eq!(
        client().fetch(
            SyncState::AwaitingMergeRequests { previous: vec![record(1, "one")] },
            SyncEvent::RemoteFailed
        ),
        failed
    );
    assert_eq!(
        client().fetch(
            SyncState::AwaitingDiscussions {
                previous: vec![record(1, "one")],
                merge_requests: vec![merge_request(5, "ahanot")]
            },
            SyncEvent::RemoteFailed
        ),
        failed
    );
}

#[test]
fn a_snapshot_from_no_plain_moment_cannot_be_queried_from() {
    for from in [at(-1), at(253_402_300_800), Timestamp { secs: 1_800_000_000, nanos: 1_000_000_000 }] {
        let snapshot = Cache { change_requests: vec![record(1, "one")], from };
        let (state, action) = client().fetch(
            SyncState::Start,
            read(CacheRead::Snapshot(snapshot), Timestamp { secs: i64::MAX, nanos: 0 }),
        );
        assert_eq!(state, SyncState::Done);
        assert_eq!(action, SyncAction::Fail(SyncError::InvalidTimestamp));
    }
}

#[test]
fn an_event_out_of_turn_ends_the_sync() {
    let unexpected = (SyncState::Done, SyncAction::Fail(SyncError::UnexpectedEvent));
    assert_eq!(client().fetch(SyncState::Start, SyncEvent::Stored), unexpected);
    assert_eq!(client().fetch(SyncState::Start, SyncEvent::RemoteFailed), unexpected);
    assert_eq!(client().fetch(SyncState::Start, SyncEvent::MergeRequests(vec![])), unexpected);
    assert_eq!(
        client().fetch(SyncState::Done, read(CacheRead::Absent, at(1_800_000_000))),
        unexpected
    );
    assert_eq!(
        client().fetch(SyncState::AwaitingStore { merged: vec![] }, SyncEvent::RemoteFailed),
        unexpected
    );
    assert_eq!(
        client().fetch(
            SyncState::AwaitingMergeRequests { previous: vec![] },
            SyncEvent::Discussions { discussions: vec![], now: at(0) }
        ),
        unexpected
    );
    assert_eq!(
        client().fetch(
            SyncState::AwaitingDiscussions {
                previous: vec![],
                merge_requests: vec![merge_request(5, "ahanot")]
            },
            SyncEvent::Discussions { discussions: vec![], now: at(0) }
        ),
        unexpected
    );
}

#[test]
fn no_sequence_of_syncs_stores_an_id_twice() {
    let mut stored = None;
    let mut state: u64 = 7;
    let mut now = 1_800_000_000;
    for _ in 0..60 {
        let mut merge_requests = Vec::new();
        let mut discussions = Vec::new();
        for iid in 0..3 {
            merge_requests.push(merge_request(iid, "ahanot"));
            let mut threads = Vec::new();
            for _ in 0..4 {
                state = state.wrapping_mul(6364136223846793005).wrapping_add(1442695040888963407);
                let id = (state >> 33) % 30;
                let author = if state % 5 == 0 { 1 } else { REVIEWER_ID };
                threads.push(thread(vec![note(author, id, "x  \n#a/b", state % 7 == 0)]));
            }
            discussions.push(threads);
        }
        state = state.wrapping_mul(6364136223846793005).wrapping_add(1442695040888963407);
        now += ((state >> 33) % 600) as i64;
        let (records, _) = run(&mut stored, at(now), merge_requests, discussions, at(now + 1));
        let records = records.unwrap();
        let mut seen: Vec<u64> = records.iter().map(|r| r.id).collect();
        seen.sort();
        seen.dedup();
        assert_eq!(seen.len(), records.len());
        assert!(stored.as_ref().unwrap().is_well_formed());
        assert_eq!(stored.as_ref().unwrap().change_requests, records);
    }
}
