use vstd::prelude::*;

verus! {

/// One unit of feedback taken from a review comment.
#[derive(Debug, PartialEq)]
pub struct ChangeRequest {
    pub author: String,
    pub category: Option<String>,
    pub description: String,
    pub id: u64,
    pub merge_request_id: u64,
    pub sub_category: Option<String>,
    pub url: String,
}

/// What a `ChangeRequest` holds, as mathematical values.
pub struct ChangeRequestView {
    pub author: Seq<char>,
    pub category: Option<Seq<char>>,
    pub description: Seq<char>,
    pub id: u64,
    pub merge_request_id: u64,
    pub sub_category: Option<Seq<char>>,
    pub url: Seq<char>,
}

impl View for ChangeRequest {
    type V = ChangeRequestView;

    open spec fn view(&self) -> ChangeRequestView {
        ChangeRequestView {
            author: self.author@,
            category: self.category.deep_view(),
            description: self.description@,
            id: self.id,
            merge_request_id: self.merge_request_id,
            sub_category: self.sub_category.deep_view(),
            url: self.url@,
        }
    }
}

impl DeepView for ChangeRequest {
    type V = ChangeRequestView;

    open spec fn deep_view(&self) -> ChangeRequestView {
        self@
    }
}

impl Clone for ChangeRequest {
    fn clone(&self) -> (copy: Self)
        ensures
            copy == *self,
    {
        ChangeRequest {
            author: self.author.clone(),
            category: self.category.clone(),
            description: self.description.clone(),
            id: self.id,
            merge_request_id: self.merge_request_id,
            sub_category: self.sub_category.clone(),
            url: self.url.clone(),
        }
    }
}

} // verus!
