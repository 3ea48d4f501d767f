//! Identifiers: random ones, and the one spelling of those that callers hand in.
use vstd::prelude::*;

verus! {

pub open spec fn hex_letter(c: char) -> bool {
    'a' <= c <= 'f' || 'A' <= c <= 'F'
}

pub open spec fn hex_digit(c: char) -> bool {
    '0' <= c <= '9' || hex_letter(c)
}

/// Where the hyphens of an identifier stand.
pub open spec fn hyphen_at(i: int) -> bool {
    i == 8 || i == 13 || i == 18 || i == 23
}

/// Thirty-two hexadecimal digits in five groups.
pub open spec fn hyphenated(s: Seq<char>) -> bool {
    &&& s.len() == 36
    &&& forall|i: int|
        0 <= i < 36 ==> if hyphen_at(i) {
            #[trigger] s[i] == '-'
        } else {
            hex_digit(s[i])
        }
}

/// The form that the gateway writes: in groups, in lower case.
pub open spec fn canonical(s: Seq<char>) -> bool {
    &&& hyphenated(s)
    &&& forall|i: int| 0 <= i < 36 ==> !('A' <= #[trigger] s[i] <= 'F')
}

pub open spec fn lower(c: char) -> char {
    if 'A' <= c <= 'Z' {
        (c as u32 + 32) as char
    } else {
        c
    }
}

pub open spec fn lower_text(s: Seq<char>) -> Seq<char> {
    s.map_values(|c: char| lower(c))
}

/// Thirty-two hexadecimal digits in one group.
pub open spec fn ungrouped(s: Seq<char>) -> bool {
    &&& s.len() == 32
    &&& forall|i: int| 0 <= i < 32 ==> hex_digit(#[trigger] s[i])
}

pub open spec fn grouped(s: Seq<char>) -> Seq<char> {
    s.subrange(0, 8) + seq!['-'] + s.subrange(8, 12) + seq!['-'] + s.subrange(12, 16) + seq!['-']
        + s.subrange(16, 20) + seq!['-'] + s.subrange(20, 32)
}

/// The canonical form of an identifier that is written in groups, in one group, in braces or as a URN.
pub open spec fn identified(s: Seq<char>) -> Option<Seq<char>> {
    if hyphenated(s) {
        Some(lower_text(s))
    } else if ungrouped(s) {
        Some(lower_text(grouped(s)))
    } else if s.len() == 38 && s[0] == '{' && s[37] == '}' && hyphenated(s.subrange(1, 37)) {
        Some(lower_text(s.subrange(1, 37)))
    } else if s.len() == 45 && lower_text(s.take(9)) == "urn:uuid:"@ && hyphenated(s.skip(9)) {
        Some(lower_text(s.skip(9)))
    } else {
        None
    }
}

/// `uuid::Uuid::new_v4`, written by its `Display`: a random identifier in canonical form, of version 4.
/// Which one it is rests on chance; two calls are not claimed to differ.
#[verifier::external_body]
pub(crate) fn random_id() -> (r: String)
    ensures
        canonical(r@),
        r@[14] == '4',
{
    uuid::Uuid::new_v4().to_string()
}

/// `uuid::Uuid::parse_str`, its result written by its `Display`: the canonical form of each of the four ways to
/// write an identifier, and nothing for any other text.
#[verifier::external_body]
pub(crate) fn canonical_id(text: &str) -> (r: Option<String>)
    ensures
        r is Some <==> identified(text@) is Some,
        r matches Some(id) ==> identified(text@) == Some(id@),
{
    uuid::Uuid::parse_str(text).ok().map(|id| id.to_string())
}

/// Whatever way an identifier is written, its canonical form is one, and stands for itself.
pub proof fn law_identifiers_have_one_canonical_form(s: Seq<char>)
    ensures
        identified(s) matches Some(id) ==> canonical(id) && identified(id) == Some(id),
        canonical(s) ==> identified(s) == Some(s),
{
    if identified(s) is Some {
        let id = identified(s)->0;
        let digits = if hyphenated(s) {
            s
        } else if ungrouped(s) {
            grouped(s)
        } else if s.len() == 38 && s[0] == '{' && s[37] == '}' && hyphenated(s.subrange(1, 37)) {
            s.subrange(1, 37)
        } else {
            s.skip(9)
        };
        assert(hyphenated(digits));
        lemma_lower_is_canonical(digits);
        lemma_canonical_is_lower(id);
    }
    if canonical(s) {
        lemma_canonical_is_lower(s);
    }
}

proof fn lemma_lower_is_canonical(s: Seq<char>)
    requires
        hyphenated(s),
    ensures
        canonical(lower_text(s)),
{
    let t = lower_text(s);
    assert forall|i: int| 0 <= i < 36 implies (if hyphen_at(i) {
        #[trigger] t[i] == '-'
    } else {
        hex_digit(t[i])
    }) by {
        assert(t[i] == lower(s[i]));
    }
    assert forall|i: int| 0 <= i < 36 implies !('A' <= #[trigger] t[i] <= 'F') by {
        assert(t[i] == lower(s[i]));
    }
}

proof fn lemma_canonical_is_lower(s: Seq<char>)
    requires
        canonical(s),
    ensures
        lower_text(s) == s,
{
    assert forall|i: int| 0 <= i < 36 implies #[trigger] lower_text(s)[i] == s[i] by {
        if hyphen_at(i) {
            assert(s[i] == '-');
        } else {
            assert(hex_digit(s[i]));
        }
    }
    assert(lower_text(s) =~= s);
}

/// The canonical form has thirty-six characters: hyphens at four places, digits and the letters `a` to `f` at all
/// others.
pub proof fn law_canonical_identifiers_are_lower_case_in_groups(s: Seq<char>)
    ensures
        canonical(s) <==> {
            &&& s.len() == 36
            &&& s[8] == '-' && s[13] == '-' && s[18] == '-' && s[23] == '-'
            &&& forall|i: int|
                0 <= i < 36 && i != 8 && i != 13 && i != 18 && i != 23 ==> '0' <= (
                #[trigger] s[i]) <= '9' || 'a' <= s[i] <= 'f'
        },
{
    if canonical(s) {
        assert(hyphen_at(8) && hyphen_at(13) && hyphen_at(18) && hyphen_at(23));
        assert(s[8] == '-' && s[13] == '-' && s[18] == '-' && s[23] == '-');
        assert forall|i: int|
            0 <= i < 36 && i != 8 && i != 13 && i != 18 && i != 23 implies '0' <= (
        #[trigger] s[i]) <= '9' || 'a' <= s[i] <= 'f' by {
            assert(!hyphen_at(i));
            assert(hex_digit(s[i]));
        }
    }
    if s.len() == 36 && s[8] == '-' && s[13] == '-' && s[18] == '-' && s[23] == '-' && forall|i: int|
        0 <= i < 36 && i != 8 && i != 13 && i != 18 && i != 23 ==> '0' <= (#[trigger] s[i]) <= '9'
            || 'a' <= s[i] <= 'f' {
        assert forall|i: int| 0 <= i < 36 implies (if hyphen_at(i) {
            #[trigger] s[i] == '-'
        } else {
            hex_digit(s[i])
        }) by {
            if !hyphen_at(i) {
                assert('0' <= s[i] <= '9' || 'a' <= s[i] <= 'f');
            }
        }
        assert forall|i: int| 0 <= i < 36 implies !('A' <= #[trigger] s[i] <= 'F') by {
            if !hyphen_at(i) {
                assert('0' <= s[i] <= '9' || 'a' <= s[i] <= 'f');
            }
        }
    }
}

} // verus!
