use crate::change_request::{ChangeRequest, ChangeRequestView};
use crate::text::chars_of;
use vstd::prelude::*;
use vstd::string::*;

verus! {

/// The choice that stands for every author.
pub open spec fn everyone() -> Seq<char> {
    "all"@
}

/// The records that `author` wrote, in their order.
pub open spec fn written_by(
    records: Seq<ChangeRequestView>,
    author: Seq<char>,
) -> Seq<ChangeRequestView>
    decreases records.len(),
{
    if records.len() == 0 {
        Seq::empty()
    } else {
        let before = written_by(records.drop_last(), author);
        if records.last().author == author {
            before.push(records.last())
        } else {
            before
        }
    }
}

/// The records to show for the choice `author`: all of them for `all`, and otherwise those
/// that the author wrote.
pub open spec fn filter_spec(
    records: Seq<ChangeRequestView>,
    author: Seq<char>,
) -> Seq<ChangeRequestView> {
    if author == everyone() {
        records
    } else {
        written_by(records, author)
    }
}

/// What `written_by` keeps are records of the author, and it keeps each of them.
pub proof fn lemma_written_by(records: Seq<ChangeRequestView>, author: Seq<char>)
    ensures
        written_by(records, author).len() <= records.len(),
        forall|k: int|
            0 <= k < written_by(records, author).len() ==> (#[trigger] written_by(
                records,
                author,
            )[k]).author == author && records.contains(written_by(records, author)[k]),
        forall|k: int|
            0 <= k < records.len() && (#[trigger] records[k]).author == author ==> written_by(
                records,
                author,
            ).contains(records[k]),
    decreases records.len(),
{
    if records.len() > 0 {
        let front = records.drop_last();
        lemma_written_by(front, author);
        let kept = written_by(records, author);
        let before = written_by(front, author);
        assert forall|k: int| 0 <= k < kept.len() implies (#[trigger] kept[k]).author == author
            && records.contains(kept[k]) by {
            if k < before.len() {
                assert(kept[k] == before[k]);
                let i = choose|i: int| 0 <= i < front.len() && front[i] == before[k];
                assert(records[i] == before[k]);
            } else {
                assert(records[records.len() - 1] == kept[k]);
            }
        }
        assert forall|k: int| 0 <= k < records.len() && (#[trigger] records[k]).author
            == author implies kept.contains(records[k]) by {
            if k < front.len() {
                assert(front[k] == records[k]);
                let i = choose|i: int| 0 <= i < before.len() && before[i] == front[k];
                assert(kept[i] == records[k]);
            } else {
                assert(kept[kept.len() - 1] == records[k]);
            }
        }
    }
}

/// The records to show for the choice `author`.
pub fn filter_by_author(
    change_requests: Vec<ChangeRequest>,
    author: &str,
) -> (shown: Vec<ChangeRequest>)
    ensures
        shown.deep_view() == filter_spec(change_requests.deep_view(), author@),
{
    let wanted = author.to_owned();
    if wanted == "all".to_owned() {
        return change_requests;
    }
    let ghost records = change_requests.deep_view();
    let mut shown: Vec<ChangeRequest> = Vec::new();
    assert(shown.deep_view() =~= written_by(records.take(0), author@));
    for i in 0..change_requests.len()
        invariant
            records == change_requests.deep_view(),
            wanted@ == author@,
            shown.deep_view() == written_by(records.take(i as int), author@),
    {
        proof {
            assert(records.take(i + 1).drop_last() =~= records.take(i as int));
            assert(records.take(i + 1).last() == change_requests[i as int]@);
        }
        if change_requests[i].author == wanted {
            let ghost before = shown.deep_view();
            shown.push(change_requests[i].clone());
            assert(shown.deep_view() =~= before.push(change_requests[i as int]@));
        }
    }
    assert(records.take(change_requests.len() as int) =~= records);
    shown
}

/// The index of the first `/` of `text` from `from` on, or the length where there is none.
pub open spec fn slash_from(text: Seq<char>, from: int) -> int
    decreases text.len() - from,
{
    if from < 0 || from >= text.len() {
        text.len() as int
    } else if text[from] == '/' {
        from
    } else {
        slash_from(text, from + 1)
    }
}

/// The page of merge requests on which the leaves of the chart are found.
pub open spec fn merge_requests_page() -> Seq<char> {
    "https://gitlab.com/archipels-managed/connect-monorepo/-/merge_requests/"@
}

/// The address that the leaf named `name` stands for. The name is a merge request, `/`, and
/// a note; what follows a second `/` is not read. A name without `/` stands for no address.
pub open spec fn leaf_address(name: Seq<char>) -> Option<Seq<char>> {
    let first = slash_from(name, 0);
    if first < name.len() {
        let second = slash_from(name, first + 1);
        Some(
            merge_requests_page() + name.subrange(0, first) + "/#note_"@ + name.subrange(
                first + 1,
                second,
            ),
        )
    } else {
        None
    }
}

/// The index of the first `/` of `text` from `from` on, or the length where there is none.
fn find_slash(text: &Vec<char>, from: usize) -> (at: usize)
    requires
        from <= text.len(),
    ensures
        at == slash_from(text@, from as int),
        from <= at <= text.len(),
{
    let mut at = from;
    while at < text.len() && text[at] != '/'
        invariant
            from <= at <= text.len(),
            slash_from(text@, from as int) == slash_from(text@, at as int),
        decreases text.len() - at,
    {
        at += 1;
    }
    at
}

/// The address that the leaf named `name` stands for.
pub fn address_of_leaf(name: &str) -> (address: Option<String>)
    ensures
        address.deep_view() == leaf_address(name@),
{
    let chars = chars_of(name);
    let first = find_slash(&chars, 0);
    if first < chars.len() {
        let second = find_slash(&chars, first + 1);
        let page = "https://gitlab.com/archipels-managed/connect-monorepo/-/merge_requests/";
        let mut address = page.to_owned();
        address.append(name.substring_char(0, first));
        address.append("/#note_");
        address.append(name.substring_char(first + 1, second));
        Some(address)
    } else {
        None
    }
}

} // verus!
