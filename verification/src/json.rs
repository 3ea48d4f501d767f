//! Parts of JSON texts. A part is handed out as it stands in the text.
use serde_json::value::RawValue;
use std::collections::BTreeMap;
use vstd::prelude::*;

use crate::text::same;

verus! {

/// The members of a JSON object by their keys, each as it stands in the text.
pub uninterp spec fn json_members(text: Seq<u8>) -> Option<Seq<(Seq<char>, Seq<u8>)>>;

/// The elements of a JSON array, each as it stands in the text.
pub uninterp spec fn json_elements(text: Seq<u8>) -> Option<Seq<Seq<u8>>>;

/// What a JSON string says.
pub uninterp spec fn json_text(text: Seq<u8>) -> Option<Seq<char>>;

/// The member under a key.
pub open spec fn member_in(members: Seq<(Seq<char>, Seq<u8>)>, key: Seq<char>) -> Option<Seq<u8>>
    decreases members.len(),
{
    if members.len() == 0 {
        None
    } else if members[0].0 == key {
        Some(members[0].1)
    } else {
        member_in(members.drop_first(), key)
    }
}

/// The member of a JSON object under a key; there is nothing where the text is no JSON object with that key.
pub open spec fn json_member(text: Seq<u8>, key: Seq<char>) -> Option<Seq<u8>> {
    match json_members(text) {
        None => None,
        Some(members) => member_in(members, key),
    }
}

pub open spec fn byte_seqs(parts: Seq<Vec<u8>>) -> Seq<Seq<u8>> {
    parts.map_values(|part: Vec<u8>| part@)
}

pub open spec fn keyed(members: Seq<(String, Vec<u8>)>) -> Seq<(Seq<char>, Seq<u8>)> {
    members.map_values(|member: (String, Vec<u8>)| (member.0@, member.1@))
}

/// `serde_json::from_slice` to a map of `RawValue`: the members of the object that the text holds, each handed out as
/// it stands in the text. What it gives is a function of the text; there is nothing where the text is no JSON object.
#[verifier::external_body]
fn members(text: &[u8]) -> (r: Option<Vec<(String, Vec<u8>)>>)
    ensures
        r is Some <==> json_members(text@) is Some,
        r matches Some(found) ==> json_members(text@) == Some(keyed(found@)),
{
    let found: BTreeMap<String, Box<RawValue>> = serde_json::from_slice(text).ok()?;
    Some(found.into_iter().map(|(key, part)| (key, part.get().as_bytes().to_vec())).collect())
}

/// The member of a JSON object under a key.
pub fn member(text: &[u8], key: &str) -> (r: Option<Vec<u8>>)
    ensures
        r is Some <==> json_member(text@, key@) is Some,
        r matches Some(part) ==> json_member(text@, key@) == Some(part@),
{
    let found = match members(text) {
        None => {
            return None;
        },
        Some(found) => found,
    };
    let ghost all = keyed(found@);
    let mut i: usize = 0;
    assert(all.skip(0) =~= all);
    while i < found.len()
        invariant
            i <= found.len(),
            all == keyed(found@),
            member_in(all, key@) == member_in(all.skip(i as int), key@),
            json_member(text@, key@) == member_in(all, key@),
        decreases found.len() - i,
    {
        assert(all.skip(i as int).drop_first() =~= all.skip(i + 1));
        if same(&found[i].0, key) {
            return Some(found[i].1.clone());
        }
        i = i + 1;
    }
    None
}

/// `serde_json::from_slice` to a list of `RawValue`: the elements of the array that the text holds, each handed out as
/// it stands in the text. What it gives is a function of the text; there is nothing where the text is no JSON array.
#[verifier::external_body]
pub(crate) fn elements(text: &[u8]) -> (r: Option<Vec<Vec<u8>>>)
    ensures
        r is Some <==> json_elements(text@) is Some,
        r matches Some(parts) ==> json_elements(text@) == Some(byte_seqs(parts@)),
{
    let found: Vec<Box<RawValue>> = serde_json::from_slice(text).ok()?;
    Some(found.into_iter().map(|part| part.get().as_bytes().to_vec()).collect())
}

/// `serde_json::from_slice` to a `String`: what the JSON string that the text holds says. What it gives is a function
/// of the text; there is nothing where the text is no JSON string.
#[verifier::external_body]
pub(crate) fn string(text: &[u8]) -> (r: Option<String>)
    ensures
        r is Some <==> json_text(text@) is Some,
        r matches Some(said) ==> json_text(text@) == Some(said@),
{
    serde_json::from_slice(text).ok()
}

/// A member is found by its key: it is the first with that key, and there is none exactly where no member has it.
pub proof fn law_members_are_found_by_their_key(members: Seq<(Seq<char>, Seq<u8>)>, key: Seq<char>)
    ensures
        match member_in(members, key) {
            None => forall|i: int| 0 <= i < members.len() ==> (#[trigger] members[i]).0 != key,
            Some(part) => exists|i: int|
                0 <= i < members.len() && (#[trigger] members[i]).0 == key && members[i].1 == part
                    && forall|j: int| 0 <= j < i ==> (#[trigger] members[j]).0 != key,
        },
    decreases members.len(),
{
    if members.len() > 0 {
        let rest = members.drop_first();
        law_members_are_found_by_their_key(rest, key);
        if members[0].0 == key {
            assert(members[0].1 == member_in(members, key)->0);
        } else {
            match member_in(members, key) {
                None => {
                    assert forall|i: int| 0 <= i < members.len() implies (#[trigger] members[i]).0
                        != key by {
                        if i > 0 {
                            assert(rest[i - 1] == members[i]);
                        }
                    }
                },
                Some(part) => {
                    let i = choose|i: int|
                        0 <= i < rest.len() && (#[trigger] rest[i]).0 == key && rest[i].1 == part
                            && forall|j: int| 0 <= j < i ==> (#[trigger] rest[j]).0 != key;
                    assert(members[i + 1] == rest[i]);
                    assert forall|j: int| 0 <= j < i + 1 implies (#[trigger] members[j]).0
                        != key by {
                        if j > 0 {
                            assert(rest[j - 1] == members[j]);
                        }
                    }
                },
            }
        }
    }
}

} // verus!
