use crate::change_request::{ChangeRequest, ChangeRequestView};
use crate::text::{
    chars_of, is_whitespace, lemma_trim_bounds, lemma_trim_end_behind, lemma_trim_idempotent,
    lemma_trim_start_before, lemma_trim_start_of_whitespace, str_trim, trim, trim_end,
    trim_start,
};
use vstd::prelude::*;
use vstd::string::*;

verus! {

/// A comment body taken apart: the text, and the tag that closed it, if one did.
#[derive(Debug, PartialEq)]
pub struct ParsedNote {
    pub description: String,
    pub category: Option<String>,
    pub sub_category: Option<String>,
}

/// What a `ParsedNote` holds, as mathematical values.
pub struct ParsedNoteView {
    pub description: Seq<char>,
    pub category: Option<Seq<char>>,
    pub sub_category: Option<Seq<char>>,
}

impl View for ParsedNote {
    type V = ParsedNoteView;

    open spec fn view(&self) -> ParsedNoteView {
        ParsedNoteView {
            description: self.description@,
            category: self.category.deep_view(),
            sub_category: self.sub_category.deep_view(),
        }
    }
}

impl DeepView for ParsedNote {
    type V = ParsedNoteView;

    open spec fn deep_view(&self) -> ParsedNoteView {
        self@
    }
}

/// The characters a category or a sub-category is made of: ASCII letters, digits, `-` and `_`.
pub open spec fn is_tag_char(c: char) -> bool {
    ||| 'a' <= c <= 'z'
    ||| 'A' <= c <= 'Z'
    ||| '0' <= c <= '9'
    ||| c == '-'
    ||| c == '_'
}

/// A name of a category or a sub-category: one tag character or more.
pub open spec fn is_tag_name(name: Seq<char>) -> bool {
    &&& name.len() > 0
    &&& forall|k: int| 0 <= k < name.len() ==> is_tag_char(#[trigger] name[k])
}

/// `text` ends in a tag `#category/sub_category` whose `#` stands at `hash` and whose `/`
/// stands at `slash`.
pub open spec fn tag_at(text: Seq<char>, hash: int, slash: int) -> bool {
    &&& 0 <= hash < slash < text.len()
    &&& text[hash] == '#'
    &&& text[slash] == '/'
    &&& is_tag_name(text.subrange(hash + 1, slash))
    &&& is_tag_name(text.subrange(slash + 1, text.len() as int))
}

/// `text` ends in a tag.
pub open spec fn has_tag(text: Seq<char>) -> bool {
    exists|hash: int, slash: int| tag_at(text, hash, slash)
}

/// Where the tag of `text` stands: the index of its `#` and that of its `/`.
pub open spec fn tag_of(text: Seq<char>) -> (int, int) {
    choose|hash: int, slash: int| tag_at(text, hash, slash)
}

/// The note that the comment body `raw` stands for.
///
/// The body is trimmed first. Where the trimmed text ends in a tag, the description is the
/// text before the `#`, as it stands, and the two names of the tag are the category and the
/// sub-category. Otherwise the description is the whole trimmed text.
pub open spec fn parse_spec(raw: Seq<char>) -> ParsedNoteView {
    let text = trim(raw);
    if has_tag(text) {
        let (hash, slash) = tag_of(text);
        ParsedNoteView {
            description: text.subrange(0, hash),
            category: Some(text.subrange(hash + 1, slash)),
            sub_category: Some(text.subrange(slash + 1, text.len() as int)),
        }
    } else {
        ParsedNoteView { description: text, category: None, sub_category: None }
    }
}

/// The description, the category and the sub-category of a change request.
pub open spec fn note_of(change_request: ChangeRequestView) -> ParsedNoteView {
    ParsedNoteView {
        description: change_request.description,
        category: change_request.category,
        sub_category: change_request.sub_category,
    }
}

/// The sub-category that is written out where a note has a category and no sub-category.
pub open spec fn default_sub_category() -> Seq<char> {
    seq!['o', 't', 'h', 'e', 'r']
}

/// What stands between the description and the tag: two spaces, a line break, and the `#`.
pub open spec fn tag_opening() -> Seq<char> {
    seq![' ', ' ', '\n', '#']
}

/// The comment body that `note` is written out as.
///
/// With a category: the description, two spaces and a line break, then the tag, in which
/// `other` stands for a sub-category that is absent. Without one: the description alone.
pub open spec fn format_spec(note: ParsedNoteView) -> Seq<char> {
    match note.category {
        Some(category) => note.description + tag_opening() + category + seq!['/'] + (
        match note.sub_category {
            Some(sub_category) => sub_category,
            None => default_sub_category(),
        }),
        None => note.description,
    }
}

/// A text has at most one tag: `tag_at` holds of one pair of indices at most.
pub proof fn lemma_tag_unique(text: Seq<char>, hash: int, slash: int, hash2: int, slash2: int)
    requires
        tag_at(text, hash, slash),
        tag_at(text, hash2, slash2),
    ensures
        hash == hash2,
        slash == slash2,
{
    let n = text.len() as int;
    let sub = text.subrange(slash + 1, n);
    let sub2 = text.subrange(slash2 + 1, n);
    let cat = text.subrange(hash + 1, slash);
    let cat2 = text.subrange(hash2 + 1, slash2);
    if slash < slash2 {
        assert(sub[slash2 - slash - 1] == text[slash2]);
        assert(is_tag_char(sub[slash2 - slash - 1]));
    }
    if slash2 < slash {
        assert(sub2[slash - slash2 - 1] == text[slash]);
        assert(is_tag_char(sub2[slash - slash2 - 1]));
    }
    if hash < hash2 {
        assert(cat[hash2 - hash - 1] == text[hash2]);
        assert(is_tag_char(cat[hash2 - hash - 1]));
    }
    if hash2 < hash {
        assert(cat2[hash - hash2 - 1] == text[hash]);
        assert(is_tag_char(cat2[hash - hash2 - 1]));
    }
}

/// The tag `#category/sub_category`.
pub open spec fn tag(category: Seq<char>, sub_category: Seq<char>) -> Seq<char> {
    seq!['#'] + category + seq!['/'] + sub_category
}

/// No tag character is white space.
pub proof fn lemma_tag_char_is_not_whitespace(c: char)
    requires
        is_tag_char(c),
    ensures
        !is_whitespace(c),
{
}

/// Text that closes with a tag is parsed into that tag, and into the text before it without
/// its leading white space.
pub proof fn lemma_parse_tagged(before: Seq<char>, category: Seq<char>, sub_category: Seq<char>)
    requires
        is_tag_name(category),
        is_tag_name(sub_category),
    ensures
        parse_spec(before + tag(category, sub_category)) == (ParsedNoteView {
            description: trim_start(before),
            category: Some(category),
            sub_category: Some(sub_category),
        }),
{
    let tail = tag(category, sub_category);
    let kept = trim_start(before);
    let text = kept + tail;
    assert(tail[0] == '#');
    assert(tail.last() == sub_category.last());
    lemma_tag_char_is_not_whitespace(sub_category.last());
    lemma_trim_start_before(before, tail);
    assert(text.last() == tail.last());
    assert(trim(before + tail) == text);
    let hash = kept.len() as int;
    let slash = hash + 1 + category.len();
    assert(text.subrange(hash + 1, slash) =~= category);
    assert(text.subrange(slash + 1, text.len() as int) =~= sub_category);
    assert(text[hash] == tail[0]);
    assert(text[slash] == tail[slash - hash]);
    assert(tag_at(text, hash, slash));
    let at = tag_of(text);
    lemma_tag_unique(text, hash, slash, at.0, at.1);
    assert(text.subrange(0, hash) =~= kept);
}

/// A body made of a description, a line break and a tag is parsed into the category and the
/// sub-category of that tag, whatever the description holds.
pub proof fn lemma_parse_recovers_tag(
    description: Seq<char>,
    category: Seq<char>,
    sub_category: Seq<char>,
)
    requires
        is_tag_name(category),
        is_tag_name(sub_category),
    ensures
        parse_spec(description + seq!['\n', '#'] + category + seq!['/'] + sub_category).category
            == Some(category),
        parse_spec(
            description + seq!['\n', '#'] + category + seq!['/'] + sub_category,
        ).sub_category == Some(sub_category),
{
    let before = description + seq!['\n'];
    lemma_parse_tagged(before, category, sub_category);
    assert(description + seq!['\n', '#'] + category + seq!['/'] + sub_category =~= before + tag(
        category,
        sub_category,
    ));
}

/// A body whose trimmed text does not end in a tag is parsed into that text, with no category
/// and no sub-category.
pub proof fn lemma_parse_untagged(raw: Seq<char>)
    requires
        !has_tag(trim(raw)),
    ensures
        parse_spec(raw).description == trim(raw),
        parse_spec(raw).category is None,
        parse_spec(raw).sub_category is None,
{
}

/// What a parsed note is made of: either no tag was found, and the description is the trimmed
/// body; or the trimmed body is the description followed by the tag of the two names.
pub proof fn lemma_parse_shape(raw: Seq<char>)
    ensures
        match (parse_spec(raw).category, parse_spec(raw).sub_category) {
            (Some(category), Some(sub_category)) => {
                &&& is_tag_name(category)
                &&& is_tag_name(sub_category)
                &&& trim(raw) == parse_spec(raw).description + tag(category, sub_category)
            },
            (None, None) => parse_spec(raw).description == trim(raw) && !has_tag(trim(raw)),
            _ => false,
        },
{
    let text = trim(raw);
    if has_tag(text) {
        let (hash, slash) = tag_of(text);
        let note = parse_spec(raw);
        assert(text =~= note.description + tag(note.category->0, note.sub_category->0));
    }
}

/// A note with a category is written out and parsed again into the same category and
/// sub-category, `other` standing for a sub-category that was absent; its description comes
/// back with the two spaces and the line break that were written behind it.
pub proof fn lemma_format_then_parse(note: ParsedNoteView)
    requires
        note.category matches Some(category) && is_tag_name(category),
        note.sub_category matches Some(sub_category) ==> is_tag_name(sub_category),
    ensures
        parse_spec(format_spec(note)) == (ParsedNoteView {
            description: trim_start(note.description + seq![' ', ' ', '\n']),
            category: note.category,
            sub_category: Some(
                match note.sub_category {
                    Some(sub_category) => sub_category,
                    None => default_sub_category(),
                },
            ),
        }),
{
    let category = note.category->0;
    let sub_category = match note.sub_category {
        Some(sub_category) => sub_category,
        None => default_sub_category(),
    };
    let before = note.description + seq![' ', ' ', '\n'];
    lemma_parse_tagged(before, category, sub_category);
    assert(format_spec(note) =~= before + tag(category, sub_category));
}

/// Parsing, writing out and parsing again gives an equal note: the same category, the same
/// sub-category, and the same description up to white space at its end.
pub proof fn lemma_parse_round_trip(raw: Seq<char>)
    ensures
        parse_spec(format_spec(parse_spec(raw))).category == parse_spec(raw).category,
        parse_spec(format_spec(parse_spec(raw))).sub_category == parse_spec(raw).sub_category,
        trim_end(parse_spec(format_spec(parse_spec(raw))).description) == trim_end(
            parse_spec(raw).description,
        ),
{
    let note = parse_spec(raw);
    let text = trim(raw);
    lemma_parse_shape(raw);
    if has_tag(text) {
        lemma_format_then_parse(note);
        let space = seq![' ', ' ', '\n'];
        let before = note.description + space;
        if note.description.len() > 0 {
            lemma_trim_bounds(raw);
            assert(before[0] == text[0]);
            lemma_trim_end_behind(note.description, space);
        } else {
            assert(before =~= space);
            lemma_trim_start_of_whitespace(space);
        }
    } else {
        lemma_trim_idempotent(raw);
    }
}

/// Whether `c` may stand in a category or a sub-category.
pub fn tag_char(c: char) -> (r: bool)
    ensures
        r == is_tag_char(c),
{
    (c >= 'a' && c <= 'z') || (c >= 'A' && c <= 'Z') || (c >= '0' && c <= '9') || c == '-' || c
        == '_'
}

/// The index just after the last character of `text[..end]` that is no tag character, or 0.
fn name_start(text: &Vec<char>, end: usize) -> (start: usize)
    requires
        end <= text.len(),
    ensures
        start <= end,
        forall|k: int| start <= k < end ==> is_tag_char(#[trigger] text[k]),
        start > 0 ==> !is_tag_char(text[start - 1]),
{
    let mut start = end;
    while start > 0 && tag_char(text[start - 1])
        invariant
            start <= end <= text.len(),
            forall|k: int| start <= k < end ==> is_tag_char(#[trigger] text[k]),
        decreases start,
    {
        start -= 1;
    }
    start
}

/// Finds the tag that `text` ends in.
pub fn find_tag(text: &Vec<char>) -> (at: Option<(usize, usize)>)
    ensures
        match at {
            Some((hash, slash)) => tag_at(text@, hash as int, slash as int),
            None => !has_tag(text@),
        },
{
    let n = text.len();
    let after_slash = name_start(text, n);
    if after_slash == n || after_slash == 0 || text[after_slash - 1] != '/' {
        proof {
            if has_tag(text@) {
                let (hash, slash) = tag_of(text@);
                let sub = text@.subrange(slash + 1, n as int);
                if after_slash <= slash {
                    assert(is_tag_char(text@[slash]));
                } else if after_slash > slash + 1 {
                    assert(sub[after_slash - 1 - (slash + 1)] == text@[after_slash - 1]);
                }
                assert(false);
            }
        }
        return None;
    }
    let slash = after_slash - 1;
    let after_hash = name_start(text, slash);
    if after_hash == slash || after_hash == 0 || text[after_hash - 1] != '#' {
        proof {
            if has_tag(text@) {
                let (hash2, slash2) = tag_of(text@);
                let sub2 = text@.subrange(slash2 + 1, n as int);
                let cat2 = text@.subrange(hash2 + 1, slash2);
                if slash < slash2 {
                    assert(is_tag_char(text@[slash2]));
                } else if slash2 < slash {
                    assert(sub2[slash - (slash2 + 1)] == text@[slash as int]);
                }
                assert(slash2 == slash);
                if after_hash <= hash2 {
                    assert(is_tag_char(text@[hash2]));
                } else if after_hash > hash2 + 1 {
                    assert(cat2[after_hash - 1 - (hash2 + 1)] == text@[after_hash - 1]);
                }
                assert(false);
            }
        }
        return None;
    }
    let hash = after_hash - 1;
    proof {
        let cat = text@.subrange(hash + 1, slash as int);
        let sub = text@.subrange(slash + 1, n as int);
        assert forall|k: int| 0 <= k < cat.len() implies is_tag_char(#[trigger] cat[k]) by {
            assert(cat[k] == text@[hash + 1 + k]);
        }
        assert forall|k: int| 0 <= k < sub.len() implies is_tag_char(#[trigger] sub[k]) by {
            assert(sub[k] == text@[slash + 1 + k]);
        }
        assert(tag_at(text@, hash as int, slash as int));
    }
    Some((hash, slash))
}

impl ParsedNote {
    /// Takes a comment body apart.
    pub fn parse(raw: &str) -> (note: ParsedNote)
        ensures
            note@ == parse_spec(raw@),
    {
        let text = str_trim(raw);
        let chars = chars_of(text);
        let end = chars.len();
        match find_tag(&chars) {
            Some((hash, slash)) => {
                proof {
                    let at = tag_of(text@);
                    lemma_tag_unique(text@, hash as int, slash as int, at.0, at.1);
                }
                ParsedNote {
                    description: text.substring_char(0, hash).to_owned(),
                    category: Some(text.substring_char(hash + 1, slash).to_owned()),
                    sub_category: Some(text.substring_char(slash + 1, end).to_owned()),
                }
            },
            None => ParsedNote { description: text.to_owned(), category: None, sub_category: None },
        }
    }

    /// Writes the note out as a comment body.
    pub fn to_string(&self) -> (text: String)
        ensures
            text@ == format_spec(self@),
    {
        match &self.category {
            Some(category) => {
                let mut text = self.description.clone();
                text.append("  \n#");
                text.append(category.as_str());
                text.append("/");
                match &self.sub_category {
                    Some(sub_category) => text.append(sub_category.as_str()),
                    None => text.append("other"),
                }
                proof {
                    reveal_strlit("  \n#");
                    reveal_strlit("/");
                    reveal_strlit("other");
                    assert("  \n#"@ =~= tag_opening());
                    assert("/"@ =~= seq!['/']);
                    assert("other"@ =~= default_sub_category());
                }
                text
            },
            None => self.description.clone(),
        }
    }
}

impl From<String> for ParsedNote {
    /// Takes a comment body apart, as `parse` does.
    fn from(raw: String) -> (note: ParsedNote)
        ensures
            note@ == parse_spec(raw@),
    {
        ParsedNote::parse(raw.as_str())
    }
}

impl vstd::std_specs::convert::FromSpecImpl<String> for ParsedNote {
    open spec fn obeys_from_spec() -> bool {
        false
    }

    open spec fn from_spec(raw: String) -> ParsedNote {
        arbitrary()
    }
}

impl<'a> From<&'a ChangeRequest> for ParsedNote {
    /// The note that `change_request` was made from, up to the white space before its tag.
    fn from(change_request: &'a ChangeRequest) -> (note: ParsedNote)
        ensures
            note@ == note_of(change_request@),
    {
        ParsedNote {
            description: change_request.description.clone(),
            category: change_request.category.clone(),
            sub_category: change_request.sub_category.clone(),
        }
    }
}

impl<'a> vstd::std_specs::convert::FromSpecImpl<&'a ChangeRequest> for ParsedNote {
    open spec fn obeys_from_spec() -> bool {
        true
    }

    open spec fn from_spec(change_request: &'a ChangeRequest) -> ParsedNote {
        ParsedNote {
            description: change_request.description,
            category: change_request.category,
            sub_category: change_request.sub_category,
        }
    }
}

} // verus!
