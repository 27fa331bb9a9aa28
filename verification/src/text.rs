use vstd::prelude::*;
use vstd::string::*;

verus! {

/// The characters that have the Unicode property `White_Space`.
pub open spec fn is_whitespace(c: char) -> bool {
    let n = c as u32;
    ||| 0x09 <= n <= 0x0D
    ||| n == 0x20
    ||| n == 0x85
    ||| n == 0xA0
    ||| n == 0x1680
    ||| 0x2000 <= n <= 0x200A
    ||| n == 0x2028
    ||| n == 0x2029
    ||| n == 0x202F
    ||| n == 0x205F
    ||| n == 0x3000
}

/// Whether `c` is white space.
pub fn is_white_space(c: char) -> (white: bool)
    ensures
        white == is_whitespace(c),
{
    let n: u32 = c as u32;
    (0x09 <= n && n <= 0x0D) || n == 0x20 || n == 0x85 || n == 0xA0 || n == 0x1680 || (0x2000 <= n
        && n <= 0x200A) || n == 0x2028 || n == 0x2029 || n == 0x202F || n == 0x205F || n == 0x3000
}

/// `s` without its leading white space.
pub open spec fn trim_start(s: Seq<char>) -> Seq<char>
    decreases s.len(),
{
    if s.len() > 0 && is_whitespace(s[0]) {
        trim_start(s.drop_first())
    } else {
        s
    }
}

/// `s` without its trailing white space.
pub open spec fn trim_end(s: Seq<char>) -> Seq<char>
    decreases s.len(),
{
    if s.len() > 0 && is_whitespace(s.last()) {
        trim_end(s.drop_last())
    } else {
        s
    }
}

/// `s` without its leading and its trailing white space.
pub open spec fn trim(s: Seq<char>) -> Seq<char> {
    trim_end(trim_start(s))
}

/// `trim_start` takes white space off the front and nothing else: what is left is the rest
/// of `s`, and does not begin with white space.
pub proof fn lemma_trim_start(s: Seq<char>)
    ensures
        trim_start(s).len() <= s.len(),
        trim_start(s) == s.skip(s.len() - trim_start(s).len()),
        forall|k: int| 0 <= k < s.len() - trim_start(s).len() ==> is_whitespace(#[trigger] s[k]),
        trim_start(s).len() > 0 ==> !is_whitespace(trim_start(s)[0]),
    decreases s.len(),
{
    if s.len() > 0 && is_whitespace(s[0]) {
        let rest = s.drop_first();
        lemma_trim_start(rest);
        let cut = rest.len() - trim_start(rest).len();
        assert(rest.skip(cut) =~= s.skip(cut + 1));
        assert forall|k: int| 0 <= k < s.len() - trim_start(s).len() implies is_whitespace(
            #[trigger] s[k],
        ) by {
            if k > 0 {
                assert(s[k] == rest[k - 1]);
            }
        }
    } else {
        assert(s.skip(0) =~= s);
    }
}

/// `trim_end` takes white space off the end and nothing else: what is left is the front of
/// `s`, and does not end in white space.
pub proof fn lemma_trim_end(s: Seq<char>)
    ensures
        trim_end(s).len() <= s.len(),
        trim_end(s) == s.take(trim_end(s).len() as int),
        forall|k: int| trim_end(s).len() <= k < s.len() ==> is_whitespace(#[trigger] s[k]),
        trim_end(s).len() > 0 ==> !is_whitespace(trim_end(s).last()),
    decreases s.len(),
{
    if s.len() > 0 && is_whitespace(s.last()) {
        let rest = s.drop_last();
        lemma_trim_end(rest);
        assert(rest.take(trim_end(rest).len() as int) =~= s.take(trim_end(rest).len() as int));
        assert forall|k: int| trim_end(s).len() <= k < s.len() implies is_whitespace(
            #[trigger] s[k],
        ) by {
            if k < rest.len() {
                assert(s[k] == rest[k]);
            }
        }
    } else {
        assert(s.take(s.len() as int) =~= s);
    }
}

/// A trimmed text neither begins nor ends with white space.
pub proof fn lemma_trim_bounds(s: Seq<char>)
    ensures
        trim(s).len() > 0 ==> !is_whitespace(trim(s)[0]) && !is_whitespace(trim(s).last()),
{
    lemma_trim_start(s);
    lemma_trim_end(trim_start(s));
}

/// Text that begins and ends with something other than white space is left as it is.
pub proof fn lemma_trim_keeps(s: Seq<char>)
    requires
        s.len() > 0 ==> !is_whitespace(s[0]) && !is_whitespace(s.last()),
    ensures
        trim(s) == s,
{
}

/// Trimming twice is trimming once.
pub proof fn lemma_trim_idempotent(s: Seq<char>)
    ensures
        trim(trim(s)) == trim(s),
{
    lemma_trim_bounds(s);
    lemma_trim_keeps(trim(s));
}

/// White space is taken off the front of `s + t` as it is taken off `s`, where `t` does not
/// begin with white space.
pub proof fn lemma_trim_start_before(s: Seq<char>, t: Seq<char>)
    requires
        t.len() > 0,
        !is_whitespace(t[0]),
    ensures
        trim_start(s + t) == trim_start(s) + t,
    decreases s.len(),
{
    if s.len() == 0 {
        assert(s + t =~= t);
        assert(trim_start(s) + t =~= t);
    } else if is_whitespace(s[0]) {
        assert((s + t).drop_first() =~= s.drop_first() + t);
        lemma_trim_start_before(s.drop_first(), t);
    } else {
        assert((s + t)[0] == s[0]);
    }
}

/// Text made of white space alone is trimmed to nothing.
pub proof fn lemma_trim_start_of_whitespace(s: Seq<char>)
    requires
        forall|k: int| 0 <= k < s.len() ==> is_whitespace(#[trigger] s[k]),
    ensures
        trim_start(s) == Seq::<char>::empty(),
    decreases s.len(),
{
    if s.len() > 0 {
        lemma_trim_start_of_whitespace(s.drop_first());
    }
}

/// White space behind a text does not change what the text is trimmed to at its end.
pub proof fn lemma_trim_end_behind(s: Seq<char>, space: Seq<char>)
    requires
        forall|k: int| 0 <= k < space.len() ==> is_whitespace(#[trigger] space[k]),
    ensures
        trim_end(s + space) == trim_end(s),
    decreases space.len(),
{
    if space.len() == 0 {
        assert(s + space =~= s);
    } else {
        assert((s + space).last() == space.last());
        assert((s + space).drop_last() =~= s + space.drop_last());
        lemma_trim_end_behind(s, space.drop_last());
    }
}

/// Calls `str::trim`, which hands back the slice that is left when the leading and the
/// trailing characters with the property `White_Space` are taken off. Trusted: that
/// `is_whitespace` lists exactly those characters.
#[verifier::external_body]
pub(crate) fn str_trim(s: &str) -> (r: &str)
    ensures
        r@ == trim(s@),
{
    s.trim()
}

/// The decimal digit for a number below 10.
pub open spec fn digit(d: nat) -> char {
    (0x30 + d) as u8 as char
}

/// `n` in decimal digits, without a leading zero.
pub open spec fn decimal(n: nat) -> Seq<char>
    decreases n,
{
    if n < 10 {
        seq![digit(n)]
    } else {
        decimal(n / 10).push(digit(n % 10))
    }
}

/// Calls `u64::to_string`, which writes the number in decimal digits, without a sign and
/// without a leading zero.
#[verifier::external_body]
pub(crate) fn u64_to_string(n: u64) -> (text: String)
    ensures
        text@ == decimal(n as nat),
{
    n.to_string()
}

/// The characters of `s`, in order.
pub fn chars_of(s: &str) -> (v: Vec<char>)
    ensures
        v@ == s@,
{
    let mut v: Vec<char> = Vec::new();
    for c in it: s.chars()
        invariant
            v@ == it.seq().take(it.index() as int),
    {
        v.push(c);
    }
    v
}

} // verus!
