use crate::change_request::{ChangeRequest, ChangeRequestView};
use crate::parsed_note::{ParsedNote, ParsedNoteView};
use convert_case::{Case, Casing};
use vstd::prelude::*;

verus! {

/// `text` in kebab case, as `convert_case` writes it: its words in lower case, joined by `-`.
pub uninterp spec fn kebab_case(text: Seq<char>) -> Seq<char>;

/// Calls `convert_case::Casing::to_case` with `Case::Kebab`, which splits the text into words
/// at hyphens, underscores, spaces and changes of case, puts each word into lower case and
/// joins them with `-`. Trusted: that the result depends on the text alone.
#[verifier::external_body]
fn to_kebab_case(text: &str) -> (kebab: String)
    ensures
        kebab@ == kebab_case(text@),
{
    text.to_case(Case::Kebab)
}

/// A label in kebab case, where there is a label.
pub open spec fn kebab_label(label: Option<Seq<char>>) -> Option<Seq<char>> {
    match label {
        Some(text) => Some(kebab_case(text)),
        None => None,
    }
}

/// A record waits to be classified where it has neither a category nor a sub-category.
pub open spec fn needs_classification_spec(record: ChangeRequestView) -> bool {
    record.category is None && record.sub_category is None
}

/// `record` with the two labels, and nothing else changed.
pub open spec fn labelled(
    record: ChangeRequestView,
    category: Option<Seq<char>>,
    sub_category: Option<Seq<char>>,
) -> ChangeRequestView {
    ChangeRequestView { category, sub_category, ..record }
}

/// The index of the first record from `from` on that waits to be classified, or the length
/// where there is none.
pub open spec fn next_unclassified_spec(records: Seq<ChangeRequestView>, from: int) -> int
    decreases records.len() - from,
{
    if from < 0 || from >= records.len() {
        records.len() as int
    } else if needs_classification_spec(records[from]) {
        from
    } else {
        next_unclassified_spec(records, from + 1)
    }
}

/// `next_unclassified_spec` gives the first such index, and only that.
pub proof fn lemma_next_unclassified(records: Seq<ChangeRequestView>, from: int)
    requires
        0 <= from <= records.len(),
    ensures
        from <= next_unclassified_spec(records, from) <= records.len(),
        next_unclassified_spec(records, from) < records.len() ==> needs_classification_spec(
            records[next_unclassified_spec(records, from)],
        ),
        forall|k: int|
            from <= k < next_unclassified_spec(records, from) ==> !needs_classification_spec(
                #[trigger] records[k],
            ),
    decreases records.len() - from,
{
    if from < records.len() && !needs_classification_spec(records[from]) {
        lemma_next_unclassified(records, from + 1);
    }
}

/// A label put into kebab case, where there is a label.
fn to_kebab_label(label: &Option<String>) -> (kebab: Option<String>)
    ensures
        kebab.deep_view() == kebab_label(label.deep_view()),
{
    match label {
        Some(text) => Some(to_kebab_case(text.as_str())),
        None => None,
    }
}

impl ChangeRequest {
    /// Whether the record waits to be classified.
    pub fn needs_classification(&self) -> (waits: bool)
        ensures
            waits == needs_classification_spec(self@),
    {
        self.category.is_none() && self.sub_category.is_none()
    }

    /// Gives the record the two labels.
    pub fn set_labels(&mut self, category: Option<String>, sub_category: Option<String>)
        ensures
            final(self)@ == labelled(old(self)@, category.deep_view(), sub_category.deep_view()),
    {
        self.category = category;
        self.sub_category = sub_category;
    }

    /// Takes over the labels that a classifier answered with, each put into kebab case. The
    /// description of the answer is not read.
    pub fn categorize(&mut self, answer: &ParsedNote)
        ensures
            final(self)@ == labelled(
                old(self)@,
                kebab_label(answer@.category),
                kebab_label(answer@.sub_category),
            ),
    {
        let category = to_kebab_label(&answer.category);
        let sub_category = to_kebab_label(&answer.sub_category);
        self.set_labels(category, sub_category);
    }
}

/// The index of the first record from `from` on that waits to be classified, if there is
/// one.
pub fn next_unclassified(records: &Vec<ChangeRequest>, from: usize) -> (next: Option<usize>)
    ensures
        match next {
            Some(index) => index < records.len() && index == next_unclassified_spec(
                records.deep_view(),
                from as int,
            ),
            None => next_unclassified_spec(records.deep_view(), from as int) == records.len(),
        },
{
    let n = records.len();
    if from >= n {
        return None;
    }
    let mut index = from;
    while index < n
        invariant
            n == records.len(),
            from <= index <= n,
            next_unclassified_spec(records.deep_view(), from as int) == next_unclassified_spec(
                records.deep_view(),
                index as int,
            ),
        decreases n - index,
    {
        assert(records.deep_view()[index as int] == records[index as int]@);
        if records[index].needs_classification() {
            return Some(index);
        }
        index += 1;
    }
    None
}

} // verus!
