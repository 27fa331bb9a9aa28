use crate::change_request::{ChangeRequest, ChangeRequestView};
use crate::gitlab_client::{
    MergeRequest, MergeRequestDiscussion, MergeRequestDiscussionView, MergeRequestNote,
    MergeRequestNoteView, MergeRequestView,
};
use crate::parsed_note::{parse_spec, ParsedNote};
use crate::text::{decimal, str_trim, trim, u64_to_string};
use vstd::prelude::*;
use vstd::string::*;

verus! {

/// The id of the person whose comments are change requests.
pub const REVIEWER_ID: u64 = 20_796_726;

/// A note counts where a person wrote it, not the system, and that person is the one whose
/// comments are change requests.
pub open spec fn qualifies_spec(note: MergeRequestNoteView) -> bool {
    !note.system && note.author.id == REVIEWER_ID
}

/// The address of the note `id` on the page of a merge request.
pub open spec fn note_url(web_url: Seq<char>, id: u64) -> Seq<char> {
    web_url + "/#note_"@ + decimal(id as nat)
}

/// The change request that `note`, found on `merge_request`, stands for. The body of the note
/// is parsed; the description is the parsed one without the white space around it.
pub open spec fn change_request_spec(
    merge_request: MergeRequestView,
    note: MergeRequestNoteView,
) -> ChangeRequestView {
    let parsed = parse_spec(note.body);
    ChangeRequestView {
        author: merge_request.author.username,
        category: parsed.category,
        description: trim(parsed.description),
        id: note.id,
        merge_request_id: merge_request.iid,
        sub_category: parsed.sub_category,
        url: note_url(merge_request.web_url, note.id),
    }
}

/// A discussion holds a change request where its first note counts. No other note is read.
pub open spec fn holds_change_request(discussion: MergeRequestDiscussionView) -> bool {
    discussion.notes.len() > 0 && qualifies_spec(discussion.notes[0])
}

/// The change requests found in the discussions of one merge request, in their order.
pub open spec fn found_in(
    merge_request: MergeRequestView,
    discussions: Seq<MergeRequestDiscussionView>,
) -> Seq<ChangeRequestView>
    decreases discussions.len(),
{
    if discussions.len() == 0 {
        Seq::empty()
    } else {
        let before = found_in(merge_request, discussions.drop_last());
        if holds_change_request(discussions.last()) {
            before.push(change_request_spec(merge_request, discussions.last().notes[0]))
        } else {
            before
        }
    }
}

/// The change requests found in the discussions of the first `count` merge requests,
/// `discussions[i]` being those of `merge_requests[i]`: merge request by merge request, in
/// their order.
pub open spec fn found_in_first(
    merge_requests: Seq<MergeRequestView>,
    discussions: Seq<Seq<MergeRequestDiscussionView>>,
    count: nat,
) -> Seq<ChangeRequestView>
    recommends
        count <= merge_requests.len(),
        count <= discussions.len(),
    decreases count,
{
    if count == 0 {
        Seq::empty()
    } else {
        found_in_first(merge_requests, discussions, (count - 1) as nat) + found_in(
            merge_requests[count - 1],
            discussions[count - 1],
        )
    }
}

/// The change requests found in the discussions of the merge requests. A merge request
/// without discussions in the list, or discussions without a merge request, give none.
pub open spec fn found(
    merge_requests: Seq<MergeRequestView>,
    discussions: Seq<Seq<MergeRequestDiscussionView>>,
) -> Seq<ChangeRequestView> {
    if merge_requests.len() <= discussions.len() {
        found_in_first(merge_requests, discussions, merge_requests.len())
    } else {
        found_in_first(merge_requests, discussions, discussions.len())
    }
}

/// No two records have the same id.
pub open spec fn distinct_ids(records: Seq<ChangeRequestView>) -> bool {
    forall|i: int, j: int| 0 <= i < j < records.len() ==> records[i].id != records[j].id
}

/// Some record has the id `id`.
pub open spec fn has_id(records: Seq<ChangeRequestView>, id: u64) -> bool {
    exists|i: int| 0 <= i < records.len() && #[trigger] records[i].id == id
}

/// The index of the first record with the id `id`, or the length where there is none.
pub open spec fn index_of(records: Seq<ChangeRequestView>, id: u64) -> int
    decreases records.len(),
{
    if records.len() == 0 {
        0
    } else if records[0].id == id {
        0
    } else {
        1 + index_of(records.drop_first(), id)
    }
}

/// `records` with `record` put in: in the place of the record that has its id, where there
/// is one, and at the end otherwise.
pub open spec fn upsert_spec(
    records: Seq<ChangeRequestView>,
    record: ChangeRequestView,
) -> Seq<ChangeRequestView> {
    let at = index_of(records, record.id);
    if at < records.len() {
        records.update(at, record)
    } else {
        records.push(record)
    }
}

/// `records` with each of `incoming` put in, one after the other.
pub open spec fn upsert_all(
    records: Seq<ChangeRequestView>,
    incoming: Seq<ChangeRequestView>,
) -> Seq<ChangeRequestView>
    decreases incoming.len(),
{
    if incoming.len() == 0 {
        records
    } else {
        upsert_spec(upsert_all(records, incoming.drop_last()), incoming.last())
    }
}

/// The set after a sync: the previous records, then what was found, no id twice. A record
/// that is found again takes the place of the one that was there.
pub open spec fn merge_spec(
    previous: Seq<ChangeRequestView>,
    incoming: Seq<ChangeRequestView>,
) -> Seq<ChangeRequestView> {
    upsert_all(upsert_all(Seq::empty(), previous), incoming)
}

/// `index_of` finds the first record with the id, and only that.
pub proof fn lemma_index_of(records: Seq<ChangeRequestView>, id: u64)
    ensures
        0 <= index_of(records, id) <= records.len(),
        index_of(records, id) < records.len() ==> records[index_of(records, id)].id == id,
        forall|k: int| 0 <= k < index_of(records, id) ==> (#[trigger] records[k]).id != id,
    decreases records.len(),
{
    if records.len() > 0 && records[0].id != id {
        let rest = records.drop_first();
        lemma_index_of(rest, id);
        assert forall|k: int| 0 <= k < index_of(records, id) implies (#[trigger] records[k]).id
            != id by {
            if k > 0 {
                assert(records[k] == rest[k - 1]);
            }
        }
    }
}

/// The first index at which the id stands is what `index_of` gives.
pub proof fn lemma_index_of_is(records: Seq<ChangeRequestView>, id: u64, at: int)
    requires
        0 <= at <= records.len(),
        forall|k: int| 0 <= k < at ==> (#[trigger] records[k]).id != id,
        at < records.len() ==> records[at].id == id,
    ensures
        index_of(records, id) == at,
{
    lemma_index_of(records, id);
    let found = index_of(records, id);
    if found < at {
        assert(records[found].id != id);
    }
}

/// Putting a record in keeps the ids distinct, keeps every id that was there, and adds no id
/// but that of the record.
pub proof fn lemma_upsert(records: Seq<ChangeRequestView>, record: ChangeRequestView)
    ensures
        distinct_ids(records) ==> distinct_ids(upsert_spec(records, record)),
        has_id(upsert_spec(records, record), record.id),
        forall|id: u64| has_id(records, id) ==> has_id(upsert_spec(records, record), id),
        forall|id: u64|
            has_id(upsert_spec(records, record), id) ==> has_id(records, id) || id == record.id,
        records.len() <= upsert_spec(records, record).len() <= records.len() + 1,
{
    lemma_index_of(records, record.id);
    let at = index_of(records, record.id);
    let after = upsert_spec(records, record);
    assert(after[at].id == record.id);
    assert forall|id: u64| has_id(records, id) implies has_id(after, id) by {
        let i = choose|i: int| 0 <= i < records.len() && #[trigger] records[i].id == id;
        assert(after[i].id == id);
    }
    assert forall|id: u64| has_id(after, id) implies has_id(records, id) || id == record.id by {
        let i = choose|i: int| 0 <= i < after.len() && #[trigger] after[i].id == id;
        if i != at {
            assert(records[i].id == id);
        }
    }
    if distinct_ids(records) {
        assert forall|i: int, j: int| 0 <= i < j < after.len() implies after[i].id
            != after[j].id by {
            if at < records.len() {
                if i == at {
                    assert(records[at].id != records[j].id);
                } else if j == at {
                    assert(records[i].id != records[at].id);
                }
            } else {
                if j == at {
                    assert(records[i].id != record.id);
                }
            }
        }
    }
}

/// Putting records in, one after the other, keeps the ids distinct and loses no id.
pub proof fn lemma_upsert_all(records: Seq<ChangeRequestView>, incoming: Seq<ChangeRequestView>)
    ensures
        distinct_ids(records) ==> distinct_ids(upsert_all(records, incoming)),
        forall|id: u64| has_id(records, id) ==> has_id(upsert_all(records, incoming), id),
        forall|k: int|
            0 <= k < incoming.len() ==> has_id(
                upsert_all(records, incoming),
                (#[trigger] incoming[k]).id,
            ),
        forall|id: u64|
            has_id(upsert_all(records, incoming), id) ==> has_id(records, id) || has_id(
                incoming,
                id,
            ),
        records.len() <= upsert_all(records, incoming).len() <= records.len() + incoming.len(),
    decreases incoming.len(),
{
    if incoming.len() > 0 {
        let before = upsert_all(records, incoming.drop_last());
        lemma_upsert_all(records, incoming.drop_last());
        lemma_upsert(before, incoming.last());
        let after = upsert_all(records, incoming);
        assert forall|k: int| 0 <= k < incoming.len() implies has_id(
            after,
            (#[trigger] incoming[k]).id,
        ) by {
            if k < incoming.len() - 1 {
                assert(incoming[k] == incoming.drop_last()[k]);
            }
        }
        assert forall|id: u64| has_id(after, id) implies has_id(records, id) || has_id(
            incoming,
            id,
        ) by {
            if !has_id(records, id) {
                if has_id(before, id) {
                    let i = choose|i: int|
                        0 <= i < incoming.drop_last().len() && #[trigger] incoming.drop_last()[i].id
                            == id;
                    assert(incoming[i].id == id);
                } else {
                    assert(incoming[incoming.len() - 1].id == id);
                }
            }
        }
    }
}

/// Records with distinct ids, put one after the other into an empty set, give the same records
/// in the same order.
pub proof fn lemma_upsert_all_distinct(records: Seq<ChangeRequestView>)
    requires
        distinct_ids(records),
    ensures
        upsert_all(Seq::empty(), records) == records,
    decreases records.len(),
{
    if records.len() > 0 {
        let front = records.drop_last();
        lemma_upsert_all_distinct(front);
        assert forall|k: int| 0 <= k < front.len() implies (#[trigger] front[k]).id
            != records.last().id by {
            assert(front[k] == records[k]);
        }
        lemma_index_of_is(front, records.last().id, front.len() as int);
        assert(front.push(records.last()) =~= records);
    } else {
        assert(records =~= Seq::empty());
    }
}

/// The merged set never holds an id twice, whatever was merged. It holds every id of the
/// previous records and of what was found, and no other; and where the previous records had
/// no id twice, each of them stands where it stood, unless it was found again.
pub proof fn lemma_merge(previous: Seq<ChangeRequestView>, incoming: Seq<ChangeRequestView>)
    ensures
        distinct_ids(merge_spec(previous, incoming)),
        forall|id: u64|
            has_id(merge_spec(previous, incoming), id) <==> has_id(previous, id) || has_id(
                incoming,
                id,
            ),
        distinct_ids(previous) ==> merge_spec(previous, incoming) == upsert_all(
            previous,
            incoming,
        ),
        distinct_ids(previous) ==> merge_spec(previous, Seq::empty()) == previous,
{
    let base = upsert_all(Seq::empty(), previous);
    lemma_upsert_all(Seq::empty(), previous);
    lemma_upsert_all(base, incoming);
    let merged = merge_spec(previous, incoming);
    assert forall|id: u64| has_id(previous, id) || has_id(incoming, id) implies has_id(
        merged,
        id,
    ) by {
        if has_id(previous, id) {
            let i = choose|i: int| 0 <= i < previous.len() && #[trigger] previous[i].id == id;
            assert(has_id(base, previous[i].id));
        } else {
            let i = choose|i: int| 0 <= i < incoming.len() && #[trigger] incoming[i].id == id;
            assert(has_id(merged, incoming[i].id));
        }
    }
    if distinct_ids(previous) {
        lemma_upsert_all_distinct(previous);
    }
}

/// Whether `note` counts as a change request.
pub fn qualifies(note: &MergeRequestNote) -> (counts: bool)
    ensures
        counts == qualifies_spec(note@),
{
    !note.system && note.author.id == REVIEWER_ID
}

/// Builds the change request that `note`, found on `merge_request`, stands for.
pub fn change_request_of(
    merge_request: &MergeRequest,
    note: &MergeRequestNote,
) -> (record: ChangeRequest)
    ensures
        record@ == change_request_spec(merge_request@, note@),
{
    let parsed = ParsedNote::parse(note.body.as_str());
    let description = str_trim(parsed.description.as_str()).to_owned();
    let mut url = merge_request.web_url.clone();
    url.append("/#note_");
    url.append(u64_to_string(note.id).as_str());
    ChangeRequest {
        author: merge_request.author.username.clone(),
        category: parsed.category,
        description,
        id: note.id,
        merge_request_id: merge_request.iid,
        sub_category: parsed.sub_category,
        url,
    }
}

/// Adds to `records` the change requests found in the discussions of one merge request.
fn collect(
    records: &mut Vec<ChangeRequest>,
    merge_request: &MergeRequest,
    discussions: &Vec<MergeRequestDiscussion>,
)
    ensures
        final(records).deep_view() == old(records).deep_view() + found_in(
            merge_request@,
            discussions.deep_view(),
        ),
{
    let ghost start = records.deep_view();
    let ghost all = discussions.deep_view();
    assert(all.take(0) =~= Seq::empty());
    for i in 0..discussions.len()
        invariant
            all == discussions.deep_view(),
            records.deep_view() == start + found_in(merge_request@, all.take(i as int)),
    {
        let discussion = &discussions[i];
        proof {
            assert(all.take(i + 1).drop_last() =~= all.take(i as int));
            assert(all.take(i + 1).last() == discussion@);
        }
        if discussion.notes.len() > 0 && qualifies(&discussion.notes[0]) {
            let record = change_request_of(merge_request, &discussion.notes[0]);
            let ghost before = records.deep_view();
            records.push(record);
            assert(records.deep_view() =~= before.push(record@));
            assert(discussion@.notes[0] == discussion.notes[0]@);
            assert(records.deep_view() =~= start + found_in(
                merge_request@,
                all.take(i + 1),
            ));
        }
    }
    assert(all.take(discussions.len() as int) =~= all);
}

/// The change requests found in the discussions of the merge requests, `discussions[i]`
/// being those of `merge_requests[i]`.
pub fn find(
    merge_requests: &Vec<MergeRequest>,
    discussions: &Vec<Vec<MergeRequestDiscussion>>,
) -> (records: Vec<ChangeRequest>)
    ensures
        records.deep_view() == found(merge_requests.deep_view(), discussions.deep_view()),
{
    let count = if merge_requests.len() <= discussions.len() {
        merge_requests.len()
    } else {
        discussions.len()
    };
    let mut records: Vec<ChangeRequest> = Vec::new();
    let ghost requests = merge_requests.deep_view();
    let ghost all = discussions.deep_view();
    assert(records.deep_view() =~= Seq::empty());
    for i in 0..count
        invariant
            count <= merge_requests.len(),
            count <= discussions.len(),
            requests == merge_requests.deep_view(),
            all == discussions.deep_view(),
            records.deep_view() == found_in_first(requests, all, i as nat),
    {
        proof {
            assert(requests[i as int] == merge_requests[i as int]@);
            assert(all[i as int] == discussions[i as int].deep_view());
        }
        collect(&mut records, &merge_requests[i], &discussions[i]);
    }
    records
}

/// A copy of the records.
pub fn copy_of(records: &Vec<ChangeRequest>) -> (copy: Vec<ChangeRequest>)
    ensures
        copy.deep_view() == records.deep_view(),
{
    let mut copy: Vec<ChangeRequest> = Vec::new();
    assert(records.deep_view().take(0) =~= copy.deep_view());
    for i in 0..records.len()
        invariant
            copy.deep_view() == records.deep_view().take(i as int),
    {
        let ghost before = copy.deep_view();
        copy.push(records[i].clone());
        assert(copy.deep_view() =~= before.push(records[i as int]@));
        assert(copy.deep_view() =~= records.deep_view().take(i + 1));
    }
    assert(records.deep_view().take(records.len() as int) =~= records.deep_view());
    copy
}

/// Puts `record` into `records`: in the place of the record that has its id, where there is
/// one, and at the end otherwise.
pub fn upsert(records: &mut Vec<ChangeRequest>, record: ChangeRequest)
    ensures
        final(records).deep_view() == upsert_spec(old(records).deep_view(), record@),
{
    let ghost before = records.deep_view();
    let n = records.len();
    let mut i: usize = 0;
    while i < n
        invariant
            i <= n == records.len(),
            records.deep_view() == before,
            before == old(records).deep_view(),
            forall|k: int| 0 <= k < i ==> (#[trigger] before[k]).id != record.id,
        decreases n - i,
    {
        if records[i].id == record.id {
            proof {
                assert(before[i as int].id == records[i as int].id);
                lemma_index_of_is(before, record.id, i as int);
            }
            records.set(i, record);
            assert(records.deep_view() =~= before.update(i as int, record@));
            return ;
        }
        assert(before[i as int].id == records[i as int].id);
        i += 1;
    }
    proof {
        lemma_index_of_is(before, record.id, n as int);
    }
    records.push(record);
    assert(records.deep_view() =~= before.push(record@));
}

/// Puts each of `incoming` into `records`, one after the other.
fn upsert_each(records: &mut Vec<ChangeRequest>, incoming: Vec<ChangeRequest>)
    ensures
        final(records).deep_view() == upsert_all(old(records).deep_view(), incoming.deep_view()),
{
    let ghost start = records.deep_view();
    let ghost all = incoming.deep_view();
    let ghost items = incoming@;
    assert(all.take(0) =~= Seq::empty());
    for record in it: incoming
        invariant
            it.seq() == items,
            all.len() == items.len(),
            forall|k: int| 0 <= k < items.len() ==> all[k] == (#[trigger] items[k])@,
            records.deep_view() == upsert_all(start, all.take(it.index() as int)),
    {
        proof {
            let i = it.index() as int;
            assert(all.take(i + 1).drop_last() =~= all.take(i));
            assert(all.take(i + 1).last() == record@);
        }
        upsert(records, record);
    }
    assert(all.take(all.len() as int) =~= all);
}

/// Merges what a sync found into the previous records. The result holds no id twice.
pub fn merge(
    previous: Vec<ChangeRequest>,
    incoming: Vec<ChangeRequest>,
) -> (merged: Vec<ChangeRequest>)
    ensures
        merged.deep_view() == merge_spec(previous.deep_view(), incoming.deep_view()),
        distinct_ids(merged.deep_view()),
{
    let mut merged: Vec<ChangeRequest> = Vec::new();
    assert(merged.deep_view() =~= Seq::empty());
    upsert_each(&mut merged, previous);
    upsert_each(&mut merged, incoming);
    proof {
        lemma_merge(previous.deep_view(), incoming.deep_view());
    }
    merged
}

} // verus!
