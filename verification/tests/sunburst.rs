use client::sunburst::{group, leaf_of, CategoryGroup, SubCategoryGroup};
use client::ChangeRequest;

fn record(merge_request_id: u64, id: u64, category: Option<&str>, sub_category: Option<&str>) -> ChangeRequest {
    ChangeRequest {
        author: "ahanot".to_string(),
        category: category.map(|text| text.to_string()),
        description: "x".to_string(),
        id,
        merge_request_id,
        sub_category: sub_category.map(|text| text.to_string()),
        url: String::new(),
    }
}

fn sub(name: &str, children: &[&str]) -> SubCategoryGroup {
    SubCategoryGroup {
        name: name.to_string(),
        children: children.iter().map(|leaf| leaf.to_string()).collect(),
    }
}

fn category(name: &str, children: Vec<SubCategoryGroup>) -> CategoryGroup {
    CategoryGroup { name: name.to_string(), children }
}

#[test]
fn a_leaf_is_named_by_merge_request_and_id() {
    assert_eq!(leaf_of(&record(1317, 2201, None, None)), "1317/2201");
    assert_eq!(leaf_of(&record(0, 0, None, None)), "0/0");
    assert_eq!(
        leaf_of(&record(u64::MAX, 10, None, None)),
        "18446744073709551615/10"
    );
}

#[test]
fn no_records_give_no_groups() {
    assert_eq!(group(&Vec::new()), Vec::new());
}

#[test]
fn records_are_grouped_in_the_order_of_first_occurrence() {
    let records = vec![
        record(1, 10, Some("domain"), Some("edge-case")),
        record(1, 11, Some("effect"), Some("pipe")),
        record(2, 12, Some("domain"), Some("naming")),
        record(2, 13, Some("domain"), Some("edge-case")),
        record(3, 14, Some("effect"), Some("pipe")),
    ];
    assert_eq!(
        group(&records),
        vec![
            category(
                "domain",
                vec![sub("edge-case", &["1/10", "2/13"]), sub("naming", &["2/12"])]
            ),
            category("effect", vec![sub("pipe", &["1/11", "3/14"])]),
        ]
    );
}

#[test]
fn absent_labels_are_gathered_as_uncategorized() {
    let records = vec![
        record(1, 10, None, None),
        record(1, 11, Some("domain"), None),
        record(1, 12, None, Some("naming")),
        record(1, 13, Some("Uncategorized"), Some("Uncategorized")),
    ];
    assert_eq!(
        group(&records),
        vec![
            category(
                "Uncategorized",
                vec![sub("Uncategorized", &["1/10", "1/13"]), sub("naming", &["1/12"])]
            ),
            category("domain", vec![sub("Uncategorized", &["1/11"])]),
        ]
    );
}

#[test]
fn grouping_keeps_every_record_once() {
    let mut state: u64 = 11;
    let labels = [None, Some("a"), Some("b"), Some("c")];
    let mut records = Vec::new();
    for id in 0..200 {
        state = state.wrapping_mul(6364136223846793005).wrapping_add(1442695040888963407);
        let category = labels[((state >> 33) % 4) as usize];
        let sub_category = labels[((state >> 40) % 4) as usize];
        records.push(record(id % 7, id, category, sub_category));
    }
    let groups = group(&records);
    let mut leaves: Vec<String> = Vec::new();
    let mut names: Vec<&str> = Vec::new();
    for found in &groups {
        assert!(!names.contains(&found.name.as_str()));
        names.push(&found.name);
        assert!(!found.children.is_empty());
        let mut sub_names: Vec<&str> = Vec::new();
        for sub_group in &found.children {
            assert!(!sub_names.contains(&sub_group.name.as_str()));
            sub_names.push(&sub_group.name);
            assert!(!sub_group.children.is_empty());
            leaves.extend(sub_group.children.iter().cloned());
        }
    }
    assert_eq!(leaves.len(), records.len());
    leaves.sort();
    let mut wanted: Vec<String> = records.iter().map(leaf_of).collect();
    wanted.sort();
    assert_eq!(leaves, wanted);
}
