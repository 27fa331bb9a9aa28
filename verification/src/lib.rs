//! Change requests taken from the review comments of a project: parsing the comments,
//! merging what each sync finds into a cached set, and the steps of a sync.

pub mod cache;
pub mod change_request;
pub mod classification;
pub mod gitlab_client;
pub mod home;
pub mod merge;
pub mod parsed_note;
pub mod sunburst;
pub mod sync;
pub mod text;
pub mod timestamp;

pub use crate::cache::{Cache, CacheRead};
pub use crate::change_request::ChangeRequest;
pub use crate::gitlab_client::{
    Author, GitlabClient, MergeRequest, MergeRequestDiscussion, MergeRequestNote, Request,
};
pub use crate::parsed_note::ParsedNote;
pub use crate::sync::{SyncAction, SyncError, SyncEvent, SyncState};
pub use crate::timestamp::Timestamp;
