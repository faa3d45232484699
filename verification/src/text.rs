//! Operations on text that the standard library provides and the verifier
//! knows nothing about, each stated over the characters of its arguments.

use vstd::prelude::*;

verus! {

/// Whether a character is white space in Unicode's sense, as
/// `char::is_whitespace` tells it: the characters that have the property
/// White_Space.
pub open spec fn is_white_space(c: char) -> bool {
    let code: u32 = c as u32;
    ||| 0x0009 <= code <= 0x000D
    ||| code == 0x0020
    ||| code == 0x0085
    ||| code == 0x00A0
    ||| code == 0x1680
    ||| 0x2000 <= code <= 0x200A
    ||| code == 0x2028
    ||| code == 0x2029
    ||| code == 0x202F
    ||| code == 0x205F
    ||| code == 0x3000
}

/// Every character of `s` is white space; the empty text is blank.
pub open spec fn is_blank(s: Seq<char>) -> bool {
    forall|i: int| 0 <= i < s.len() ==> is_white_space(#[trigger] s[i])
}

/// The text without its leading and trailing white space.
pub open spec fn trimmed(s: Seq<char>) -> Seq<char>
    decreases s.len(),
{
    if s.len() == 0 {
        s
    } else if is_white_space(s[0]) {
        trimmed(s.drop_first())
    } else if is_white_space(s.last()) {
        trimmed(s.drop_last())
    } else {
        s
    }
}

/// The value that a text spells as a boolean: only `true` and `false` spell
/// one.
pub open spec fn spelled_bool(s: Seq<char>) -> Option<bool> {
    if s == "true"@ {
        Some(true)
    } else if s == "false"@ {
        Some(false)
    } else {
        None
    }
}

/// The place of the first colon of a text that has one.
pub open spec fn first_colon(s: Seq<char>) -> int {
    choose|i: int| 0 <= i < s.len() && s[i] == ':' && forall|j: int| 0 <= j < i ==> s[j] != ':'
}

/// The text before the first colon and the text after it, for a text that
/// has a colon.
pub open spec fn split_at_colon(s: Seq<char>) -> Option<(Seq<char>, Seq<char>)> {
    if s.contains(':') {
        Some((s.take(first_colon(s)), s.skip(first_colon(s) + 1)))
    } else {
        None
    }
}

/// `str`'s `==`: two texts are equal exactly when they hold the same
/// characters in the same order.
#[verifier::external_body]
pub(crate) fn same_text(a: &str, b: &str) -> (r: bool)
    ensures
        r == (a@ == b@),
{
    a == b
}

/// `str::trim`: the text without its leading and trailing white space.
#[verifier::external_body]
pub(crate) fn trim_text<'a>(s: &'a str) -> (t: &'a str)
    ensures
        t@ == trimmed(s@),
{
    s.trim()
}

/// `str::split_once` at a colon: the parts around the first colon, or `None`
/// for a text without one.
#[verifier::external_body]
pub(crate) fn split_once_colon<'a>(s: &'a str) -> (r: Option<(&'a str, &'a str)>)
    ensures
        match r {
            Some((before, after)) => s@ == before@ + seq![':'] + after@ && !before@.contains(':'),
            None => !s@.contains(':'),
        },
{
    s.split_once(':')
}

/// `str::strip_prefix`: what follows `prefix` in a text that starts with it,
/// or `None` for a text that does not.
#[verifier::external_body]
pub(crate) fn strip_text_prefix<'a>(s: &'a str, prefix: &str) -> (r: Option<&'a str>)
    ensures
        match r {
            Some(rest) => s@ == prefix@ + rest@,
            None => !prefix@.is_prefix_of(s@),
        },
{
    s.strip_prefix(prefix)
}

/// `str::parse::<bool>`: `true` and `false` are read, nothing else is.
#[verifier::external_body]
pub(crate) fn parse_bool(s: &str) -> (r: Option<bool>)
    ensures
        r == spelled_bool(s@),
{
    s.parse::<bool>().ok()
}

/// A text that trims to nothing is blank, and a blank text trims to
/// nothing. What is left of any other text starts and ends with a character
/// that is no white space.
pub proof fn lemma_trimmed(s: Seq<char>)
    ensures
        trimmed(s).len() == 0 <==> is_blank(s),
        trimmed(s).len() > 0 ==> !is_white_space(trimmed(s)[0]) && !is_white_space(trimmed(s).last()),
    decreases s.len(),
{
    if s.len() == 0 {
    } else if is_white_space(s[0]) {
        let rest = s.drop_first();
        lemma_trimmed(rest);
        if is_blank(rest) {
            assert forall|i: int| 0 <= i < s.len() implies is_white_space(#[trigger] s[i]) by {
                if i > 0 {
                    assert(rest[i - 1] == s[i]);
                }
            }
        }
        if is_blank(s) {
            assert forall|i: int| 0 <= i < rest.len() implies is_white_space(#[trigger] rest[i]) by {
                assert(rest[i] == s[i + 1]);
            }
        }
    } else if is_white_space(s.last()) {
        let rest = s.drop_last();
        lemma_trimmed(rest);
        assert(rest[0] == s[0]);
        assert(!is_blank(rest));
        assert(!is_blank(s));
    } else {
        assert(!is_blank(s));
    }
}

/// What `split_at_colon` gives for a text put together from a part without
/// a colon, a colon, and a rest.
pub proof fn lemma_split_at_colon(before: Seq<char>, after: Seq<char>)
    requires
        !before.contains(':'),
    ensures
        split_at_colon(before + seq![':'] + after) == Some((before, after)),
{
    let s = before + seq![':'] + after;
    let at = before.len() as int;
    assert(s[at] == ':');
    assert forall|j: int| 0 <= j < at implies s[j] != ':' by {
        assert(s[j] == before[j]);
        assert(before.contains(before[j]));
    }
    let i = first_colon(s);
    assert(0 <= i < s.len() && s[i] == ':' && forall|j: int| 0 <= j < i ==> s[j] != ':');
    assert(i == at);
    assert(s.take(at) =~= before);
    assert(s.skip(at + 1) =~= after);
}

} // verus!
