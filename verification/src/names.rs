//! The rules for the names of children, tools and profiles.
use crate::text::{byte_len, chars_of};
use vstd::prelude::*;
use vstd::utf8::*;

verus! {

/// The most characters that the name of a child or a profile has.
pub const MAX_CHILD_NAME: usize = 128;

/// The most characters that the name of a tool has.
pub const MAX_TOOL_NAME: usize = 256;

/// An ASCII letter or digit, `_`, `-` or `.`.
pub open spec fn name_char(c: char) -> bool {
    ||| 'a' <= c <= 'z'
    ||| 'A' <= c <= 'Z'
    ||| '0' <= c <= '9'
    ||| c == '_' || c == '-' || c == '.'
}

/// Made of name characters only.
pub open spec fn name_chars(s: Seq<char>) -> bool {
    forall|i: int| 0 <= i < s.len() ==> name_char(#[trigger] s[i])
}

/// A name of at least one and at most `max` characters.
pub open spec fn named_within(s: Seq<char>, max: int) -> bool {
    &&& 0 < s.len() <= max
    &&& name_chars(s)
}

/// The refusal of a child name.
#[derive(Debug, Clone, Copy, PartialEq, Eq, Structural)]
pub struct InvalidChildName;

impl InvalidChildName {
    pub fn message(&self) -> (r: &'static str)
        ensures
            r@ == "child name may contain only ASCII letters, digits, '_', '-' and '.'"@,
    {
        "child name may contain only ASCII letters, digits, '_', '-' and '.'"
    }
}

/// Whether `s` is made of name characters only.
pub fn has_only_name_chars(s: &str) -> (r: bool)
    ensures
        r == name_chars(s@),
{
    let chars = chars_of(s);
    let mut i: usize = 0;
    while i < chars.len()
        invariant
            i <= chars.len(),
            chars@ == s@,
            forall|j: int| 0 <= j < i ==> name_char(#[trigger] s@[j]),
        decreases chars.len() - i,
    {
        let c = chars[i];
        let good = ('a' <= c && c <= 'z') || ('A' <= c && c <= 'Z') || ('0' <= c && c <= '9') || c
            == '_' || c == '-' || c == '.';
        if !good {
            assert(!name_char(s@[i as int]));
            return false;
        }
        i = i + 1;
    }
    true
}

/// Name characters are ASCII, so that a name takes as many bytes as characters.
pub proof fn lemma_name_takes_one_byte_per_char(s: Seq<char>)
    requires
        name_chars(s),
    ensures
        encode_utf8(s).len() == s.len(),
        is_ascii_chars(s),
{
    assert forall|i: int| 0 <= i < s.len() implies '\0' <= #[trigger] s[i] <= '\u{7f}' by {
        assert(name_char(s[i]));
    }
    is_ascii_chars_encode_utf8(s);
}

fn within(s: &str, max: usize) -> (r: bool)
    ensures
        r == named_within(s@, max as int),
{
    let good = has_only_name_chars(s);
    proof {
        if good {
            lemma_name_takes_one_byte_per_char(s@);
        }
    }
    good && !s.is_empty() && byte_len(s) <= max
}

/// Whether `name` can name a tool.
pub fn valid_tool_name(name: &str) -> (r: bool)
    ensures
        r == named_within(name@, MAX_TOOL_NAME as int),
{
    within(name, MAX_TOOL_NAME)
}

/// Whether `value` can name a child, a tool or a profile in a policy.
pub fn valid_name(value: &str) -> (r: bool)
    ensures
        r == named_within(value@, MAX_CHILD_NAME as int),
{
    within(value, MAX_CHILD_NAME)
}

/// Refuses what cannot name a child.
pub fn validate_child_name(name: &str) -> (r: Result<(), InvalidChildName>)
    ensures
        r is Ok <==> named_within(name@, MAX_CHILD_NAME as int),
{
    if within(name, MAX_CHILD_NAME) {
        Ok(())
    } else {
        Err(InvalidChildName)
    }
}

/// A name has at least one and at most so many characters, each a letter, a digit or one of three marks of ASCII.
pub proof fn law_names_are_made_of_letters_digits_and_marks(s: Seq<char>, max: int)
    ensures
        named_within(s, max) <==> 1 <= s.len() <= max && forall|i: int|
            0 <= i < s.len() ==> {
                let code = (#[trigger] s[i]) as int;
                97 <= code <= 122 || 65 <= code <= 90 || 48 <= code <= 57 || code == 95 || code
                    == 45 || code == 46
            },
{
    if 1 <= s.len() <= max && forall|i: int|
        0 <= i < s.len() ==> {
            let code = (#[trigger] s[i]) as int;
            97 <= code <= 122 || 65 <= code <= 90 || 48 <= code <= 57 || code == 95 || code == 45
                || code == 46
        } {
        assert forall|i: int| 0 <= i < s.len() implies name_char(#[trigger] s[i]) by {}
    }
}

} // verus!
