use client::merge::{change_request_of, copy_of, find, merge, qualifies, upsert, REVIEWER_ID};
use client::{Author, ChangeRequest, MergeRequest, MergeRequestDiscussion, MergeRequestNote};

fn merge_request(iid: u64, username: &str) -> MergeRequest {
    MergeRequest {
        author: Author { id: 99, username: username.to_string() },
        iid,
        web_url: format!("https://gitlab.com/g/p/-/merge_requests/{}", iid),
    }
}

fn note_by(author: u64, id: u64, body: &str, system: bool) -> MergeRequestNote {
    MergeRequestNote {
        author: Author { id: author, username: "someone".to_string() },
        body: body.to_string(),
        id,
        system,
    }
}

fn counted(id: u64, body: &str) -> MergeRequestNote {
    note_by(REVIEWER_ID, id, body, false)
}

fn discussion(notes: Vec<MergeRequestNote>) -> MergeRequestDiscussion {
    MergeRequestDiscussion { notes }
}

fn record(id: u64, description: &str) -> ChangeRequest {
    ChangeRequest {
        author: "ahanot".to_string(),
        category: None,
        description: description.to_string(),
        id,
        merge_request_id: 1,
        sub_category: None,
        url: format!("https://gitlab.com/g/p/-/merge_requests/1/#note_{}", id),
    }
}

fn ids(records: &Vec<ChangeRequest>) -> Vec<u64> {
    records.iter().map(|record| record.id).collect()
}

#[test]
fn the_configured_author_is_fixed() {
    assert_eq!(REVIEWER_ID, 20796726);
}

#[test]
fn a_note_counts_where_the_configured_author_wrote_it() {
    assert!(qualifies(&note_by(REVIEWER_ID, 1, "x", false)));
    assert!(!qualifies(&note_by(REVIEWER_ID, 1, "x", true)));
    assert!(!qualifies(&note_by(REVIEWER_ID + 1, 1, "x", false)));
    assert!(!qualifies(&note_by(0, 1, "x", true)));
}

#[test]
fn a_tagged_comment_becomes_a_categorized_change_request() {
    let built = change_request_of(
        &merge_request(1317, "cpagnoux"),
        &counted(2201, "Fix off-by-one  \n#domain/edge-case"),
    );
    assert_eq!(
        built,
        ChangeRequest {
            author: "cpagnoux".to_string(),
            category: Some("domain".to_string()),
            description: "Fix off-by-one".to_string(),
            id: 2201,
            merge_request_id: 1317,
            sub_category: Some("edge-case".to_string()),
            url: "https://gitlab.com/g/p/-/merge_requests/1317/#note_2201".to_string(),
        }
    );
}

#[test]
fn an_untagged_comment_becomes_an_unclassified_change_request() {
    let built = change_request_of(&merge_request(4, "ahanot"), &counted(9, "  Please rename\n"));
    assert_eq!(built.category, None);
    assert_eq!(built.sub_category, None);
    assert_eq!(built.description, "Please rename");
    assert_eq!(built.author, "ahanot");
    assert_eq!(built.id, 9);
    assert_eq!(built.merge_request_id, 4);
    assert_eq!(built.url, "https://gitlab.com/g/p/-/merge_requests/4/#note_9");
    assert!(built.needs_classification());
}

#[test]
fn the_description_loses_the_white_space_before_the_tag() {
    let built = change_request_of(
        &merge_request(1, "a"),
        &counted(1, "comment\n            #category/sub_category"),
    );
    assert_eq!(built.description, "comment");
    let built = change_request_of(&merge_request(1, "a"), &counted(1, "#a/b"));
    assert_eq!(built.description, "");
    let built = change_request_of(&merge_request(1, "a"), &counted(u64::MAX, "x"));
    assert_eq!(
        built.url,
        "https://gitlab.com/g/p/-/merge_requests/1/#note_18446744073709551615"
    );
}

#[test]
fn a_discussion_that_the_system_opened_is_skipped() {
    let merge_requests = vec![merge_request(1, "a")];
    let discussions = vec![vec![discussion(vec![
        note_by(REVIEWER_ID, 10, "added 1 commit", true),
        counted(11, "Fix this  \n#domain/edge-case"),
    ])]];
    assert_eq!(find(&merge_requests, &discussions), Vec::new());
}

#[test]
fn only_the_first_note_of_a_discussion_is_read() {
    let merge_requests = vec![merge_request(1, "a")];
    let discussions = vec![vec![
        discussion(vec![note_by(5, 10, "question", false), counted(11, "answer #a/b")]),
        discussion(vec![counted(12, "first #a/b"), counted(13, "second #c/d")]),
        discussion(vec![]),
    ]];
    let found = find(&merge_requests, &discussions);
    assert_eq!(ids(&found), vec![12]);
    assert_eq!(found[0].category, Some("a".to_string()));
}

#[test]
fn find_goes_through_the_merge_requests_in_order() {
    let merge_requests = vec![merge_request(1, "a"), merge_request(2, "b"), merge_request(3, "c")];
    let discussions = vec![
        vec![discussion(vec![counted(30, "x")]), discussion(vec![counted(10, "y")])],
        vec![],
        vec![discussion(vec![counted(20, "z")]), discussion(vec![counted(30, "again")])],
    ];
    let found = find(&merge_requests, &discussions);
    assert_eq!(ids(&found), vec![30, 10, 20, 30]);
    assert_eq!(
        found.iter().map(|r| r.merge_request_id).collect::<Vec<u64>>(),
        vec![1, 1, 3, 3]
    );
    assert_eq!(
        found.iter().map(|r| r.author.as_str()).collect::<Vec<&str>>(),
        vec!["a", "a", "c", "c"]
    );
    assert_eq!(find(&Vec::new(), &Vec::new()), Vec::new());
}

#[test]
fn find_reads_the_merge_requests_that_have_discussions() {
    let merge_requests = vec![merge_request(1, "a"), merge_request(2, "b")];
    let discussions = vec![vec![discussion(vec![counted(10, "x")])]];
    assert_eq!(ids(&find(&merge_requests, &discussions)), vec![10]);
    let discussions = vec![
        vec![discussion(vec![counted(10, "x")])],
        vec![discussion(vec![counted(20, "y")])],
        vec![discussion(vec![counted(30, "z")])],
    ];
    assert_eq!(ids(&find(&merge_requests, &discussions)), vec![10, 20]);
    assert_eq!(find(&merge_requests, &Vec::new()), Vec::new());
}

#[test]
fn upsert_appends_a_new_id() {
    let mut records = vec![record(1, "one"), record(2, "two")];
    upsert(&mut records, record(3, "three"));
    assert_eq!(records, vec![record(1, "one"), record(2, "two"), record(3, "three")]);
    let mut none = Vec::new();
    upsert(&mut none, record(3, "three"));
    assert_eq!(none, vec![record(3, "three")]);
}

#[test]
fn upsert_replaces_a_known_id_in_place() {
    let mut records = vec![record(1, "one"), record(2, "two"), record(3, "three")];
    upsert(&mut records, record(2, "changed"));
    assert_eq!(records, vec![record(1, "one"), record(2, "changed"), record(3, "three")]);
    upsert(&mut records, record(1, "first"));
    assert_eq!(records, vec![record(1, "first"), record(2, "changed"), record(3, "three")]);
}

#[test]
fn merge_appends_what_is_new() {
    let merged = merge(vec![record(1, "one")], vec![record(2, "two"), record(3, "three")]);
    assert_eq!(merged, vec![record(1, "one"), record(2, "two"), record(3, "three")]);
    assert_eq!(merge(Vec::new(), Vec::new()), Vec::new());
    assert_eq!(merge(vec![record(1, "one")], Vec::new()), vec![record(1, "one")]);
}

#[test]
fn merge_never_holds_an_id_twice() {
    let merged = merge(
        vec![record(1, "one"), record(2, "two")],
        vec![record(2, "changed"), record(3, "three"), record(3, "again"), record(1, "first")],
    );
    assert_eq!(merged, vec![record(1, "first"), record(2, "changed"), record(3, "again")]);
    let healed = merge(vec![record(1, "one"), record(2, "two"), record(1, "late")], Vec::new());
    assert_eq!(healed, vec![record(1, "late"), record(2, "two")]);
    let mut state: u64 = 42;
    let mut previous = Vec::new();
    for _ in 0..50 {
        let mut incoming = Vec::new();
        for _ in 0..7 {
            state = state.wrapping_mul(6364136223846793005).wrapping_add(1442695040888963407);
            incoming.push(record((state >> 33) % 40, "x"));
        }
        previous = merge(previous, incoming);
        let mut seen = ids(&previous);
        seen.sort();
        seen.dedup();
        assert_eq!(seen.len(), previous.len());
    }
    assert!(previous.len() <= 40);
}

#[test]
fn copy_of_gives_equal_records() {
    let records = vec![record(1, "one"), record(2, "two")];
    assert_eq!(copy_of(&records), records);
    assert_eq!(records[0].clone(), records[0]);
}
