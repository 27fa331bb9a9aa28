use crate::change_request::{ChangeRequest, ChangeRequestView};
use crate::text::{decimal, u64_to_string};
use vstd::prelude::*;
use vstd::string::*;

verus! {

/// The change requests of one sub-category, by the names of their leaves.
#[derive(Debug, PartialEq)]
pub struct SubCategoryGroup {
    pub name: String,
    pub children: Vec<String>,
}

/// The sub-categories of one category.
#[derive(Debug, PartialEq)]
pub struct CategoryGroup {
    pub name: String,
    pub children: Vec<SubCategoryGroup>,
}

/// What a `SubCategoryGroup` holds, as mathematical values.
pub struct SubCategoryGroupView {
    pub name: Seq<char>,
    pub children: Seq<Seq<char>>,
}

/// What a `CategoryGroup` holds, as mathematical values.
pub struct CategoryGroupView {
    pub name: Seq<char>,
    pub children: Seq<SubCategoryGroupView>,
}

impl View for SubCategoryGroup {
    type V = SubCategoryGroupView;

    open spec fn view(&self) -> SubCategoryGroupView {
        SubCategoryGroupView { name: self.name@, children: self.children.deep_view() }
    }
}

impl DeepView for SubCategoryGroup {
    type V = SubCategoryGroupView;

    open spec fn deep_view(&self) -> SubCategoryGroupView {
        self@
    }
}

impl View for CategoryGroup {
    type V = CategoryGroupView;

    open spec fn view(&self) -> CategoryGroupView {
        CategoryGroupView { name: self.name@, children: self.children.deep_view() }
    }
}

impl DeepView for CategoryGroup {
    type V = CategoryGroupView;

    open spec fn deep_view(&self) -> CategoryGroupView {
        self@
    }
}

/// The name under which records without a label are gathered.
pub open spec fn uncategorized() -> Seq<char> {
    "Uncategorized"@
}

/// The name of a label, or `Uncategorized` where it is absent.
pub open spec fn label_name(label: Option<Seq<char>>) -> Seq<char> {
    match label {
        Some(name) => name,
        None => uncategorized(),
    }
}

/// The name of the leaf of a record: its merge request, `/`, and its id.
pub open spec fn leaf_name(record: ChangeRequestView) -> Seq<char> {
    decimal(record.merge_request_id as nat) + "/"@ + decimal(record.id as nat)
}

/// The index of the first sub-category named `name`, or the length where there is none.
pub open spec fn sub_category_index(groups: Seq<SubCategoryGroupView>, name: Seq<char>) -> int
    decreases groups.len(),
{
    if groups.len() == 0 {
        0
    } else if groups[0].name == name {
        0
    } else {
        1 + sub_category_index(groups.drop_first(), name)
    }
}

/// The index of the first category named `name`, or the length where there is none.
pub open spec fn category_index(groups: Seq<CategoryGroupView>, name: Seq<char>) -> int
    decreases groups.len(),
{
    if groups.len() == 0 {
        0
    } else if groups[0].name == name {
        0
    } else {
        1 + category_index(groups.drop_first(), name)
    }
}

/// `groups` with `leaf` added to the sub-category `name`, which is opened at the end where
/// it is not there yet.
pub open spec fn add_leaf(
    groups: Seq<SubCategoryGroupView>,
    name: Seq<char>,
    leaf: Seq<char>,
) -> Seq<SubCategoryGroupView> {
    let at = sub_category_index(groups, name);
    if at < groups.len() {
        groups.update(
            at,
            SubCategoryGroupView { name: groups[at].name, children: groups[at].children.push(leaf) },
        )
    } else {
        groups.push(SubCategoryGroupView { name, children: seq![leaf] })
    }
}

/// `groups` with `record` added to its category and sub-category, each of which is opened at
/// the end where it is not there yet.
pub open spec fn add_record(
    groups: Seq<CategoryGroupView>,
    record: ChangeRequestView,
) -> Seq<CategoryGroupView> {
    let name = label_name(record.category);
    let at = category_index(groups, name);
    if at < groups.len() {
        groups.update(
            at,
            CategoryGroupView {
                name: groups[at].name,
                children: add_leaf(
                    groups[at].children,
                    label_name(record.sub_category),
                    leaf_name(record),
                ),
            },
        )
    } else {
        groups.push(
            CategoryGroupView {
                name,
                children: add_leaf(
                    Seq::empty(),
                    label_name(record.sub_category),
                    leaf_name(record),
                ),
            },
        )
    }
}

/// The records by category and sub-category: the categories in the order in which they
/// first occur, in each its sub-categories likewise, in each of those the leaves of its
/// records in their order.
pub open spec fn grouped(records: Seq<ChangeRequestView>) -> Seq<CategoryGroupView>
    decreases records.len(),
{
    if records.len() == 0 {
        Seq::empty()
    } else {
        add_record(grouped(records.drop_last()), records.last())
    }
}

/// `sub_category_index` finds the first sub-category with the name, and only that.
pub proof fn lemma_sub_category_index(groups: Seq<SubCategoryGroupView>, name: Seq<char>)
    ensures
        0 <= sub_category_index(groups, name) <= groups.len(),
        sub_category_index(groups, name) < groups.len() ==> groups[sub_category_index(
            groups,
            name,
        )].name == name,
        forall|k: int|
            0 <= k < sub_category_index(groups, name) ==> (#[trigger] groups[k]).name != name,
    decreases groups.len(),
{
    if groups.len() > 0 && groups[0].name != name {
        let rest = groups.drop_first();
        lemma_sub_category_index(rest, name);
        assert forall|k: int| 0 <= k < sub_category_index(groups, name) implies (
        #[trigger] groups[k]).name != name by {
            if k > 0 {
                assert(groups[k] == rest[k - 1]);
            }
        }
    }
}

/// `category_index` finds the first category with the name, and only that.
pub proof fn lemma_category_index(groups: Seq<CategoryGroupView>, name: Seq<char>)
    ensures
        0 <= category_index(groups, name) <= groups.len(),
        category_index(groups, name) < groups.len() ==> groups[category_index(groups, name)].name
            == name,
        forall|k: int|
            0 <= k < category_index(groups, name) ==> (#[trigger] groups[k]).name != name,
    decreases groups.len(),
{
    if groups.len() > 0 && groups[0].name != name {
        let rest = groups.drop_first();
        lemma_category_index(rest, name);
        assert forall|k: int| 0 <= k < category_index(groups, name) implies (
        #[trigger] groups[k]).name != name by {
            if k > 0 {
                assert(groups[k] == rest[k - 1]);
            }
        }
    }
}

/// The first index at which the name stands is what `sub_category_index` gives.
pub proof fn lemma_sub_category_index_is(
    groups: Seq<SubCategoryGroupView>,
    name: Seq<char>,
    at: int,
)
    requires
        0 <= at <= groups.len(),
        forall|k: int| 0 <= k < at ==> (#[trigger] groups[k]).name != name,
        at < groups.len() ==> groups[at].name == name,
    ensures
        sub_category_index(groups, name) == at,
{
    lemma_sub_category_index(groups, name);
    let found = sub_category_index(groups, name);
    if found < at {
        assert(groups[found].name != name);
    }
}

/// The first index at which the name stands is what `category_index` gives.
pub proof fn lemma_category_index_is(groups: Seq<CategoryGroupView>, name: Seq<char>, at: int)
    requires
        0 <= at <= groups.len(),
        forall|k: int| 0 <= k < at ==> (#[trigger] groups[k]).name != name,
        at < groups.len() ==> groups[at].name == name,
    ensures
        category_index(groups, name) == at,
{
    lemma_category_index(groups, name);
    let found = category_index(groups, name);
    if found < at {
        assert(groups[found].name != name);
    }
}

/// No two sub-categories have the same name, and none is empty.
pub open spec fn sub_categories_wf(groups: Seq<SubCategoryGroupView>) -> bool {
    &&& forall|i: int, j: int| 0 <= i < j < groups.len() ==> groups[i].name != groups[j].name
    &&& forall|i: int| 0 <= i < groups.len() ==> (#[trigger] groups[i]).children.len() > 0
}

/// No two categories have the same name, none is empty, and the sub-categories of each are
/// well formed.
pub open spec fn categories_wf(groups: Seq<CategoryGroupView>) -> bool {
    &&& forall|i: int, j: int| 0 <= i < j < groups.len() ==> groups[i].name != groups[j].name
    &&& forall|i: int|
        0 <= i < groups.len() ==> (#[trigger] groups[i]).children.len() > 0 && sub_categories_wf(
            groups[i].children,
        )
}

/// The number of leaves in the sub-categories.
pub open spec fn sub_category_leaves(groups: Seq<SubCategoryGroupView>) -> nat
    decreases groups.len(),
{
    if groups.len() == 0 {
        0
    } else {
        sub_category_leaves(groups.drop_last()) + groups.last().children.len()
    }
}

/// The number of leaves in the categories.
pub open spec fn leaves(groups: Seq<CategoryGroupView>) -> nat
    decreases groups.len(),
{
    if groups.len() == 0 {
        0
    } else {
        leaves(groups.drop_last()) + sub_category_leaves(groups.last().children)
    }
}

/// Putting other children in the place of those of one sub-category changes the number of
/// leaves by the difference.
proof fn lemma_sub_category_leaves_update(
    groups: Seq<SubCategoryGroupView>,
    at: int,
    group: SubCategoryGroupView,
)
    requires
        0 <= at < groups.len(),
    ensures
        sub_category_leaves(groups.update(at, group)) + groups[at].children.len()
            == sub_category_leaves(groups) + group.children.len(),
    decreases groups.len(),
{
    let after = groups.update(at, group);
    if at == groups.len() - 1 {
        assert(after.drop_last() =~= groups.drop_last());
    } else {
        assert(after.drop_last() =~= groups.drop_last().update(at, group));
        lemma_sub_category_leaves_update(groups.drop_last(), at, group);
    }
}

/// Putting another category in the place of one changes the number of leaves by the
/// difference.
proof fn lemma_leaves_update(groups: Seq<CategoryGroupView>, at: int, group: CategoryGroupView)
    requires
        0 <= at < groups.len(),
    ensures
        leaves(groups.update(at, group)) + sub_category_leaves(groups[at].children) == leaves(
            groups,
        ) + sub_category_leaves(group.children),
    decreases groups.len(),
{
    let after = groups.update(at, group);
    if at == groups.len() - 1 {
        assert(after.drop_last() =~= groups.drop_last());
    } else {
        assert(after.drop_last() =~= groups.drop_last().update(at, group));
        lemma_leaves_update(groups.drop_last(), at, group);
    }
}

/// Adding a leaf keeps the sub-categories well formed and adds one leaf.
pub proof fn lemma_add_leaf(groups: Seq<SubCategoryGroupView>, name: Seq<char>, leaf: Seq<char>)
    requires
        sub_categories_wf(groups),
    ensures
        sub_categories_wf(add_leaf(groups, name, leaf)),
        add_leaf(groups, name, leaf).len() > 0,
        sub_category_leaves(add_leaf(groups, name, leaf)) == sub_category_leaves(groups) + 1,
{
    lemma_sub_category_index(groups, name);
    let at = sub_category_index(groups, name);
    let after = add_leaf(groups, name, leaf);
    if at < groups.len() {
        lemma_sub_category_leaves_update(groups, at, after[at]);
        assert forall|i: int, j: int| 0 <= i < j < after.len() implies after[i].name
            != after[j].name by {
            assert(after[i].name == groups[i].name);
            assert(after[j].name == groups[j].name);
        }
    } else {
        assert(after.drop_last() =~= groups);
        assert forall|i: int, j: int| 0 <= i < j < after.len() implies after[i].name
            != after[j].name by {
            assert(after[i] == groups[i]);
        }
    }
}

/// Adding a record keeps the categories well formed and adds one leaf.
pub proof fn lemma_add_record(groups: Seq<CategoryGroupView>, record: ChangeRequestView)
    requires
        categories_wf(groups),
    ensures
        categories_wf(add_record(groups, record)),
        leaves(add_record(groups, record)) == leaves(groups) + 1,
{
    let name = label_name(record.category);
    let sub_name = label_name(record.sub_category);
    let leaf = leaf_name(record);
    lemma_category_index(groups, name);
    let at = category_index(groups, name);
    let after = add_record(groups, record);
    if at < groups.len() {
        assert(sub_categories_wf(groups[at].children));
        lemma_add_leaf(groups[at].children, sub_name, leaf);
        lemma_leaves_update(groups, at, after[at]);
        assert forall|i: int, j: int| 0 <= i < j < after.len() implies after[i].name
            != after[j].name by {
            assert(after[i].name == groups[i].name);
            assert(after[j].name == groups[j].name);
        }
        assert forall|i: int| 0 <= i < after.len() implies (#[trigger] after[i]).children.len()
            > 0 && sub_categories_wf(after[i].children) by {
            if i != at {
                assert(after[i] == groups[i]);
            }
        }
    } else {
        lemma_add_leaf(Seq::empty(), sub_name, leaf);
        assert(after.drop_last() =~= groups);
        assert forall|i: int, j: int| 0 <= i < j < after.len() implies after[i].name
            != after[j].name by {
            assert(after[i] == groups[i]);
        }
        assert forall|i: int| 0 <= i < after.len() implies (#[trigger] after[i]).children.len()
            > 0 && sub_categories_wf(after[i].children) by {
            if i != at {
                assert(after[i] == groups[i]);
            }
        }
    }
}

/// Grouping loses nothing and doubles nothing: no name stands twice among the categories,
/// nor among the sub-categories of one; no group is empty; and there are as many leaves as
/// there are records.
pub proof fn lemma_grouped(records: Seq<ChangeRequestView>)
    ensures
        categories_wf(grouped(records)),
        leaves(grouped(records)) == records.len(),
    decreases records.len(),
{
    if records.len() > 0 {
        lemma_grouped(records.drop_last());
        lemma_add_record(grouped(records.drop_last()), records.last());
    }
}

/// The name of a label, or `Uncategorized` where it is absent.
fn name_of(label: &Option<String>) -> (name: String)
    ensures
        name@ == label_name(label.deep_view()),
{
    match label {
        Some(name) => name.clone(),
        None => "Uncategorized".to_owned(),
    }
}

/// The name of the leaf of `record`.
pub fn leaf_of(record: &ChangeRequest) -> (name: String)
    ensures
        name@ == leaf_name(record@),
{
    let mut name = u64_to_string(record.merge_request_id);
    name.append("/");
    name.append(u64_to_string(record.id).as_str());
    name
}

/// Adds `leaf` to the sub-category `name`.
fn put_leaf(groups: &mut Vec<SubCategoryGroup>, name: String, leaf: String)
    ensures
        final(groups).deep_view() == add_leaf(old(groups).deep_view(), name@, leaf@),
{
    let ghost before = groups.deep_view();
    let n = groups.len();
    let mut i: usize = 0;
    while i < n
        invariant
            i <= n == groups.len(),
            groups.deep_view() == before,
            before == old(groups).deep_view(),
            forall|k: int| 0 <= k < i ==> (#[trigger] before[k]).name != name@,
        decreases n - i,
    {
        assert(before[i as int] == groups[i as int]@);
        if groups[i].name == name {
            proof {
                lemma_sub_category_index_is(before, name@, i as int);
            }
            let ghost children = groups[i as int].children.deep_view();
            groups[i].children.push(leaf);
            assert(groups[i as int].children.deep_view() =~= children.push(leaf@));
            assert(groups.deep_view() =~= add_leaf(before, name@, leaf@));
            return ;
        }
        i += 1;
    }
    proof {
        lemma_sub_category_index_is(before, name@, n as int);
    }
    let mut children: Vec<String> = Vec::new();
    children.push(leaf);
    assert(children.deep_view() =~= seq![leaf@]);
    groups.push(SubCategoryGroup { name, children });
    assert(groups.deep_view() =~= add_leaf(before, name@, leaf@));
}

/// Adds `record` to its category and sub-category.
fn put_record(groups: &mut Vec<CategoryGroup>, record: &ChangeRequest)
    ensures
        final(groups).deep_view() == add_record(old(groups).deep_view(), record@),
{
    let ghost before = groups.deep_view();
    let name = name_of(&record.category);
    let sub_name = name_of(&record.sub_category);
    let leaf = leaf_of(record);
    let n = groups.len();
    let mut i: usize = 0;
    while i < n
        invariant
            i <= n == groups.len(),
            groups.deep_view() == before,
            before == old(groups).deep_view(),
            name@ == label_name(record@.category),
            sub_name@ == label_name(record@.sub_category),
            leaf@ == leaf_name(record@),
            forall|k: int| 0 <= k < i ==> (#[trigger] before[k]).name != name@,
        decreases n - i,
    {
        assert(before[i as int] == groups[i as int]@);
        if groups[i].name == name {
            proof {
                lemma_category_index_is(before, name@, i as int);
            }
            put_leaf(&mut groups[i].children, sub_name, leaf);
            assert(groups.deep_view() =~= add_record(before, record@));
            return ;
        }
        i += 1;
    }
    proof {
        lemma_category_index_is(before, name@, n as int);
    }
    let mut children: Vec<SubCategoryGroup> = Vec::new();
    assert(children.deep_view() =~= Seq::empty());
    put_leaf(&mut children, sub_name, leaf);
    groups.push(CategoryGroup { name, children });
    assert(groups.deep_view() =~= add_record(before, record@));
}

/// Groups the records by category and sub-category.
pub fn group(change_requests: &Vec<ChangeRequest>) -> (groups: Vec<CategoryGroup>)
    ensures
        groups.deep_view() == grouped(change_requests.deep_view()),
{
    let mut groups: Vec<CategoryGroup> = Vec::new();
    let ghost records = change_requests.deep_view();
    assert(groups.deep_view() =~= grouped(records.take(0)));
    for i in 0..change_requests.len()
        invariant
            records == change_requests.deep_view(),
            groups.deep_view() == grouped(records.take(i as int)),
    {
        proof {
            assert(records.take(i + 1).drop_last() =~= records.take(i as int));
            assert(records.take(i + 1).last() == change_requests[i as int]@);
        }
        put_record(&mut groups, &change_requests[i]);
    }
    assert(records.take(change_requests.len() as int) =~= records);
    groups
}

} // verus!
