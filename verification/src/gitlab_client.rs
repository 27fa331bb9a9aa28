use crate::text::{decimal, u64_to_string};
use vstd::prelude::*;
use vstd::string::*;
use vstd::utf8::encode_utf8;

verus! {

/// Who wrote a merge request or a note.
#[derive(Debug, PartialEq)]
pub struct Author {
    pub id: u64,
    pub username: String,
}

/// What an `Author` holds, as mathematical values.
pub struct AuthorView {
    pub id: u64,
    pub username: Seq<char>,
}

impl View for Author {
    type V = AuthorView;

    open spec fn view(&self) -> AuthorView {
        AuthorView { id: self.id, username: self.username@ }
    }
}

impl DeepView for Author {
    type V = AuthorView;

    open spec fn deep_view(&self) -> AuthorView {
        self@
    }
}

impl Clone for Author {
    fn clone(&self) -> (copy: Self)
        ensures
            copy == *self,
    {
        Author { id: self.id, username: self.username.clone() }
    }
}

/// A merge request, as far as the sync reads it.
#[derive(Debug, PartialEq)]
pub struct MergeRequest {
    pub author: Author,
    pub iid: u64,
    pub web_url: String,
}

/// What a `MergeRequest` holds, as mathematical values.
pub struct MergeRequestView {
    pub author: AuthorView,
    pub iid: u64,
    pub web_url: Seq<char>,
}

impl View for MergeRequest {
    type V = MergeRequestView;

    open spec fn view(&self) -> MergeRequestView {
        MergeRequestView { author: self.author@, iid: self.iid, web_url: self.web_url@ }
    }
}

impl DeepView for MergeRequest {
    type V = MergeRequestView;

    open spec fn deep_view(&self) -> MergeRequestView {
        self@
    }
}

impl Clone for MergeRequest {
    fn clone(&self) -> (copy: Self)
        ensures
            copy == *self,
    {
        MergeRequest {
            author: self.author.clone(),
            iid: self.iid,
            web_url: self.web_url.clone(),
        }
    }
}

/// One comment of a discussion.
#[derive(Debug, PartialEq)]
pub struct MergeRequestNote {
    pub author: Author,
    pub body: String,
    pub id: u64,
    pub system: bool,
}

/// What a `MergeRequestNote` holds, as mathematical values.
pub struct MergeRequestNoteView {
    pub author: AuthorView,
    pub body: Seq<char>,
    pub id: u64,
    pub system: bool,
}

impl View for MergeRequestNote {
    type V = MergeRequestNoteView;

    open spec fn view(&self) -> MergeRequestNoteView {
        MergeRequestNoteView {
            author: self.author@,
            body: self.body@,
            id: self.id,
            system: self.system,
        }
    }
}

impl DeepView for MergeRequestNote {
    type V = MergeRequestNoteView;

    open spec fn deep_view(&self) -> MergeRequestNoteView {
        self@
    }
}

/// A thread of notes on a merge request.
#[derive(Debug, PartialEq)]
pub struct MergeRequestDiscussion {
    pub notes: Vec<MergeRequestNote>,
}

/// What a `MergeRequestDiscussion` holds, as mathematical values.
pub struct MergeRequestDiscussionView {
    pub notes: Seq<MergeRequestNoteView>,
}

impl View for MergeRequestDiscussion {
    type V = MergeRequestDiscussionView;

    open spec fn view(&self) -> MergeRequestDiscussionView {
        MergeRequestDiscussionView { notes: self.notes.deep_view() }
    }
}

impl DeepView for MergeRequestDiscussion {
    type V = MergeRequestDiscussionView;

    open spec fn deep_view(&self) -> MergeRequestDiscussionView {
        self@
    }
}

/// A read request to the remote source, ready to be sent: the address, the headers and the
/// query parameters, each list in the order in which it was built.
#[derive(Debug, PartialEq)]
pub struct Request {
    pub url: String,
    pub headers: Vec<(String, String)>,
    pub query: Vec<(String, String)>,
}

/// What a `Request` holds, as mathematical values.
pub struct RequestView {
    pub url: Seq<char>,
    pub headers: Seq<(Seq<char>, Seq<char>)>,
    pub query: Seq<(Seq<char>, Seq<char>)>,
}

impl View for Request {
    type V = RequestView;

    open spec fn view(&self) -> RequestView {
        RequestView {
            url: self.url@,
            headers: self.headers.deep_view(),
            query: self.query.deep_view(),
        }
    }
}

impl DeepView for Request {
    type V = RequestView;

    open spec fn deep_view(&self) -> RequestView {
        self@
    }
}

/// The bytes that stand for themselves in a percent-encoded text: ASCII letters, digits,
/// `-`, `.`, `_` and `~`.
pub open spec fn is_unreserved(byte: u8) -> bool {
    ||| 0x30 <= byte <= 0x39
    ||| 0x41 <= byte <= 0x5A
    ||| 0x61 <= byte <= 0x7A
    ||| byte == 0x2D
    ||| byte == 0x2E
    ||| byte == 0x5F
    ||| byte == 0x7E
}

/// The upper-case hexadecimal digit for a number below 16.
pub open spec fn hex_digit(digit: u8) -> char {
    if digit < 10 {
        (0x30 + digit) as u8 as char
    } else {
        (0x41 + digit - 10) as u8 as char
    }
}

/// One byte, percent-encoded.
pub open spec fn percent_encode_byte(byte: u8) -> Seq<char> {
    if is_unreserved(byte) {
        seq![byte as char]
    } else {
        seq!['%', hex_digit(byte / 16), hex_digit(byte % 16)]
    }
}

/// Bytes, percent-encoded one by one.
pub open spec fn percent_encode(bytes: Seq<u8>) -> Seq<char>
    decreases bytes.len(),
{
    if bytes.len() == 0 {
        Seq::empty()
    } else {
        percent_encode_byte(bytes[0]) + percent_encode(bytes.drop_first())
    }
}

/// Calls `urlencoding::encode`, which percent-encodes every byte of the UTF-8 form of the
/// text but ASCII letters, digits, `-`, `.`, `_` and `~`, with upper-case hexadecimal digits.
#[verifier::external_body]
fn url_encode(text: &str) -> (encoded: String)
    ensures
        encoded@ == percent_encode(encode_utf8(text@)),
{
    urlencoding::encode(text).into_owned()
}

/// What is needed to read one project of the remote source.
#[derive(Debug)]
pub struct GitlabClient {
    access_token: String,
    domain: String,
    project: String,
}

/// What a `GitlabClient` holds, as mathematical values.
pub struct GitlabClientView {
    pub access_token: Seq<char>,
    pub domain: Seq<char>,
    pub project: Seq<char>,
}

impl View for GitlabClient {
    type V = GitlabClientView;

    closed spec fn view(&self) -> GitlabClientView {
        GitlabClientView {
            access_token: self.access_token@,
            domain: self.domain@,
            project: self.project@,
        }
    }
}

/// The address of `endpoint` in the project of `client`.
pub open spec fn endpoint_url(client: GitlabClientView, endpoint: Seq<char>) -> Seq<char> {
    "https://"@ + client.domain + "/api/v4/projects/"@ + client.project + "/"@ + endpoint
}

/// The request that reads `endpoint`: JSON is asked for, the token is shown, and pages hold
/// a hundred items.
pub open spec fn get_spec(client: GitlabClientView, endpoint: Seq<char>) -> RequestView {
    RequestView {
        url: endpoint_url(client, endpoint),
        headers: seq![
            ("accept"@, "application/json"@),
            ("private-token"@, client.access_token),
        ],
        query: seq![("per_page"@, "100"@)],
    }
}

/// The request that lists the merge requests updated after the moment written `updated_after`.
pub open spec fn list_merge_requests_spec(
    client: GitlabClientView,
    updated_after: Seq<char>,
) -> RequestView {
    let request = get_spec(client, "merge_requests"@);
    RequestView { query: request.query.push(("updated_after"@, updated_after)), ..request }
}

/// The endpoint of the discussions of the merge request `iid`.
pub open spec fn discussions_endpoint(iid: u64) -> Seq<char> {
    "merge_requests/"@ + decimal(iid as nat) + "/discussions"@
}

/// The request that lists the discussions of the merge request `iid`.
pub open spec fn list_discussions_spec(client: GitlabClientView, iid: u64) -> RequestView {
    get_spec(client, discussions_endpoint(iid))
}

impl GitlabClient {
    /// A client for `project` on gitlab.com. The project's path is percent-encoded, so that
    /// it can stand in an address.
    pub fn new(access_token: String, project: String) -> (client: GitlabClient)
        ensures
            client@ == (GitlabClientView {
                access_token: access_token@,
                domain: "gitlab.com"@,
                project: percent_encode(encode_utf8(project@)),
            }),
    {
        let domain = "gitlab.com".to_owned();
        let project = url_encode(project.as_str());
        GitlabClient { access_token, domain, project }
    }

    /// The request that reads `endpoint` of the project.
    pub fn get(&self, endpoint: &str) -> (request: Request)
        ensures
            request@ == get_spec(self@, endpoint@),
    {
        let mut url = "https://".to_owned();
        url.append(self.domain.as_str());
        url.append("/api/v4/projects/");
        url.append(self.project.as_str());
        url.append("/");
        url.append(endpoint);
        let mut headers: Vec<(String, String)> = Vec::new();
        headers.push(("accept".to_owned(), "application/json".to_owned()));
        headers.push(("private-token".to_owned(), self.access_token.clone()));
        let mut query: Vec<(String, String)> = Vec::new();
        query.push(("per_page".to_owned(), "100".to_owned()));
        let request = Request { url, headers, query };
        assert(request@.headers =~= get_spec(self@, endpoint@).headers);
        assert(request@.query =~= get_spec(self@, endpoint@).query);
        request
    }

    /// The request that lists the merge requests updated after the moment written
    /// `updated_after`.
    pub fn list_merge_requests(&self, updated_after: &str) -> (request: Request)
        ensures
            request@ == list_merge_requests_spec(self@, updated_after@),
    {
        let mut request = self.get("merge_requests");
        let ghost before = request@;
        request.query.push(("updated_after".to_owned(), updated_after.to_owned()));
        assert(request@.query =~= before.query.push(("updated_after"@, updated_after@)));
        request
    }

    /// The request that lists the discussions of the merge request `iid`.
    pub fn list_discussions(&self, iid: u64) -> (request: Request)
        ensures
            request@ == list_discussions_spec(self@, iid),
    {
        let mut endpoint = "merge_requests/".to_owned();
        endpoint.append(u64_to_string(iid).as_str());
        endpoint.append("/discussions");
        self.get(endpoint.as_str())
    }
}

} // verus!
