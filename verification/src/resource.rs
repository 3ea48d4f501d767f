//! Resources of the children under names of the gateway's own.
use crate::encoding::{from_hex, hex, is_hex, law_hex_reads_back, to_hex, unhex};
use crate::name_map::NameMap;
use crate::names::{name_char, named_within, valid_tool_name, MAX_TOOL_NAME};
use crate::text::{byte_len, chars_of, from_utf8, glue, text_of};
use vstd::prelude::*;
use vstd::string::*;
use vstd::utf8::*;

verus! {

pub const SCHEME: &'static str = "gateway-resource://";

/// The most hexadecimal digits in the address of a resource.
pub const MAX_ENCODED_URI: usize = 4096;

/// The most bytes in the address that a child gives a resource.
pub const MAX_CHILD_URI: usize = 2048;

/// The most resources in a listing.
pub const MAX_AGGREGATED_RESOURCES: usize = 256;

/// How many seconds a child has to list its resources or to hand one out.
pub const RESOURCE_OPERATION_SECONDS: u64 = 5;

/// The most bytes in the encoded content of a resource.
pub const MAX_RESOURCE_BYTES: usize = 1_048_576;

/// The gateway's address of a child's resource: the child by its name, the child's address in hexadecimal.
pub open spec fn scoped(child: Seq<char>, uri: Seq<char>) -> Seq<char> {
    SCHEME@ + child + seq!['/'] + hex(encode_utf8(uri))
}

/// The text splits into the two parts around its first slash.
pub open spec fn splits(text: Seq<char>, child: Seq<char>, encoded: Seq<char>) -> bool {
    &&& text == child + seq!['/'] + encoded
    &&& !child.contains('/')
}

/// The text is the gateway's address of a resource, of which child and with which address there.
pub open spec fn addresses(text: Seq<char>, child: Seq<char>, encoded: Seq<char>) -> bool {
    &&& SCHEME@.len() <= text.len()
    &&& text.take(SCHEME@.len() as int) == SCHEME@
    &&& splits(text.skip(SCHEME@.len() as int), child, encoded)
    &&& named_within(child, MAX_TOOL_NAME as int)
    &&& 0 < encoded.len() <= MAX_ENCODED_URI
    &&& is_hex(encoded)
    &&& valid_utf8(unhex(encoded))
}

/// The text is the gateway's address of the resource that the child has under `uri`.
pub open spec fn leads_to(text: Seq<char>, child: Seq<char>, uri: Seq<char>) -> bool {
    exists|encoded: Seq<char>| #[trigger]
        addresses(text, child, encoded) && uri == decode_utf8(unhex(encoded))
}

/// Gives a child's resource its address at the gateway.
pub fn gateway_resource_uri(child: &str, uri: &str) -> (r: String)
    ensures
        r@ == scoped(child@, uri@),
{
    let encoded = to_hex(uri.as_bytes());
    let mut out = glue(SCHEME, child);
    out.push('/');
    let out = glue(&out, &encoded);
    assert(out@ =~= scoped(child@, uri@));
    out
}

fn find_slash(chars: &Vec<char>, from: usize) -> (r: Option<usize>)
    requires
        from <= chars.len(),
    ensures
        r is None ==> !chars@.skip(from as int).contains('/'),
        r matches Some(at) ==> from <= at < chars.len() && chars@[at as int] == '/'
            && !chars@.subrange(from as int, at as int).contains('/'),
{
    let mut i: usize = from;
    while i < chars.len()
        invariant
            from <= i <= chars.len(),
            forall|j: int| from <= j < i ==> chars@[j] != '/',
        decreases chars.len() - i,
    {
        if chars[i] == '/' {
            return Some(i);
        }
        i = i + 1;
    }
    None
}

fn part(chars: &Vec<char>, from: usize, to: usize) -> (r: Vec<char>)
    requires
        from <= to <= chars.len(),
    ensures
        r@ == chars@.subrange(from as int, to as int),
{
    let mut r: Vec<char> = Vec::new();
    let mut i: usize = from;
    while i < to
        invariant
            from <= i <= to <= chars.len(),
            r@ == chars@.subrange(from as int, i as int),
        decreases to - i,
    {
        r.push(chars[i]);
        i = i + 1;
    }
    r
}

proof fn lemma_split_is_unique(text: Seq<char>, c: Seq<char>, e: Seq<char>, d: Seq<char>, f: Seq<char>)
    requires
        splits(text, c, e),
        splits(text, d, f),
    ensures
        c == d,
        e == f,
{
    assert(text[c.len() as int] == '/');
    assert(text[d.len() as int] == '/');
    if c.len() < d.len() {
        assert(d[c.len() as int] == '/');
    }
    if d.len() < c.len() {
        assert(c[d.len() as int] == '/');
    }
    assert(c =~= text.take(c.len() as int));
    assert(d =~= text.take(d.len() as int));
    assert(e =~= text.skip(c.len() as int + 1));
    assert(f =~= text.skip(d.len() as int + 1));
}

proof fn lemma_names_have_no_slash(child: Seq<char>)
    requires
        named_within(child, MAX_TOOL_NAME as int),
    ensures
        !child.contains('/'),
{
    if child.contains('/') {
        let i = choose|i: int| 0 <= i < child.len() && child[i] == '/';
        assert(name_char(child[i]));
    }
}

/// The child and the child's address of a resource, if the text is a gateway's address of one.
pub fn parse_gateway_resource_uri(uri: &str) -> (r: Option<(String, String)>)
    ensures
        r is Some <==> exists|child: Seq<char>, resource: Seq<char>| #[trigger]
            leads_to(uri@, child, resource),
        r matches Some(target) ==> leads_to(uri@, target.0@, target.1@),
{
    let chars = chars_of(uri);
    let scheme = chars_of(SCHEME);
    if chars.len() < scheme.len() {
        return None;
    }
    let start: usize = scheme.len();
    let mut i: usize = 0;
    while i < start
        invariant
            i <= start,
            start == scheme.len(),
            scheme.len() <= chars.len(),
            chars@ == uri@,
            scheme@ == SCHEME@,
            forall|j: int| 0 <= j < i ==> chars@[j] == scheme@[j],
        decreases start - i,
    {
        if chars[i] != scheme[i] {
            assert(uri@.take(start as int)[i as int] != SCHEME@[i as int]);
            return None;
        }
        i = i + 1;
    }
    assert(uri@.take(start as int) =~= SCHEME@);
    let ghost rest = uri@.skip(start as int);
    let at: usize = match find_slash(&chars, start) {
        None => {
            assert forall|c: Seq<char>, e: Seq<char>| !(#[trigger] splits(rest, c, e)) by {
                if splits(rest, c, e) {
                    assert(rest[c.len() as int] == '/');
                }
            }
            return None;
        },
        Some(at) => at,
    };
    let name = part(&chars, start, at);
    let ghost encoded = chars@.skip(at + 1);
    proof {
        assert(rest =~= name@ + seq!['/'] + encoded);
        assert forall|c: Seq<char>, e: Seq<char>| #[trigger] splits(rest, c, e) implies c == name@
            && e == encoded by {
            lemma_split_is_unique(rest, c, e, name@, encoded);
        }
    }
    let child = text_of(&name);
    let digits: usize = chars.len() - (at + 1);
    if !valid_tool_name(&child) || digits == 0 || digits > MAX_ENCODED_URI {
        return None;
    }
    match from_hex(&chars, at + 1) {
        None => None,
        Some(bytes) => match from_utf8(bytes) {
            None => None,
            Some(resource) => {
                assert(addresses(uri@, child@, encoded));
                assert(leads_to(uri@, child@, resource@));
                Some((child, resource))
            },
        },
    }
}

/// A child's resource can be addressed through the gateway: its address leads back to the child and to the address there.
pub proof fn law_address_leads_back(child: Seq<char>, uri: Seq<char>)
    requires
        named_within(child, MAX_TOOL_NAME as int),
        0 < encode_utf8(uri).len() <= MAX_CHILD_URI,
    ensures
        leads_to(scoped(child, uri), child, uri),
{
    let text = scoped(child, uri);
    law_hex_reads_back(encode_utf8(uri));
    encode_utf8_valid_utf8(uri);
    encode_utf8_decode_utf8(uri);
    lemma_names_have_no_slash(child);
    assert(text.take(SCHEME@.len() as int) =~= SCHEME@);
    assert(text.skip(SCHEME@.len() as int) =~= child + seq!['/'] + hex(encode_utf8(uri)));
    assert(addresses(text, child, hex(encode_utf8(uri))));
}

/// An address leads to one resource only.
pub proof fn law_addresses_are_unambiguous(
    text: Seq<char>,
    child: Seq<char>,
    uri: Seq<char>,
    other: Seq<char>,
    other_uri: Seq<char>,
)
    requires
        leads_to(text, child, uri),
        leads_to(text, other, other_uri),
    ensures
        child == other,
        uri == other_uri,
{
    let e = choose|e: Seq<char>| #[trigger]
        addresses(text, child, e) && uri == decode_utf8(unhex(e));
    let f = choose|f: Seq<char>| #[trigger]
        addresses(text, other, f) && other_uri == decode_utf8(unhex(f));
    lemma_split_is_unique(text.skip(SCHEME@.len() as int), child, e, other, f);
}

/// Resources of different children, or with different addresses there, have different addresses at the gateway. That
/// holds of any names without a slash.
pub proof fn law_addresses_are_child_scoped(
    child: Seq<char>,
    uri: Seq<char>,
    other: Seq<char>,
    other_uri: Seq<char>,
)
    requires
        !child.contains('/'),
        !other.contains('/'),
        scoped(child, uri) == scoped(other, other_uri),
    ensures
        child == other,
        uri == other_uri,
{
    let text = scoped(child, uri).skip(SCHEME@.len() as int);
    assert(text =~= child + seq!['/'] + hex(encode_utf8(uri)));
    assert(text =~= other + seq!['/'] + hex(encode_utf8(other_uri)));
    lemma_split_is_unique(
        text,
        child,
        hex(encode_utf8(uri)),
        other,
        hex(encode_utf8(other_uri)),
    );
    law_hex_reads_back(encode_utf8(uri));
    law_hex_reads_back(encode_utf8(other_uri));
    encode_utf8_decode_utf8(uri);
    encode_utf8_decode_utf8(other_uri);
}

/// A resource as a child lists it.
#[derive(Debug, Clone, PartialEq, Eq)]
pub struct Listed {
    pub uri: String,
    pub name: String,
}

/// What a child answered when it was asked for its resources; nothing where it failed or took too long.
#[derive(Debug, Clone, PartialEq, Eq)]
pub struct Answer {
    pub child: String,
    pub resources: Option<Vec<Listed>>,
}

/// A resource of the gateway's listing: which resource of which answer it is, and its address and name there.
#[derive(Debug, Clone, PartialEq, Eq)]
pub struct Placed {
    pub answer: usize,
    pub place: usize,
    pub uri: String,
    pub name: String,
}

#[verifier::ext_equal]
pub struct Entry {
    pub answer: int,
    pub place: int,
    pub uri: Seq<char>,
    pub name: Seq<char>,
}

impl View for Placed {
    type V = Entry;

    open spec fn view(&self) -> Entry {
        Entry {
            answer: self.answer as int,
            place: self.place as int,
            uri: self.uri@,
            name: self.name@,
        }
    }
}

/// How many resources of one child are listed: the first, as long as there is room and none has too long an address.
pub open spec fn admitted(resources: Seq<Listed>, room: int) -> nat
    decreases resources.len(),
{
    if resources.len() == 0 || room <= 0 || encode_utf8(resources[0].uri@).len() > MAX_CHILD_URI {
        0
    } else {
        1 + admitted(resources.drop_first(), room - 1)
    }
}

pub open spec fn entry_of(answer: Answer, at: int, place: int) -> Entry {
    Entry {
        answer: at,
        place,
        uri: scoped(answer.child@, answer.resources->0@[place].uri@),
        name: answer.child@ + ":"@ + answer.resources->0@[place].name@,
    }
}

/// The gateway's listing: the resources of the children one after the other, each under the name of its child.
pub open spec fn listing(answers: Seq<Answer>) -> Seq<Entry>
    decreases answers.len(),
{
    if answers.len() == 0 {
        Seq::empty()
    } else {
        let before = listing(answers.drop_last());
        match answers.last().resources {
            None => before,
            Some(resources) => before + Seq::new(
                admitted(resources@, MAX_AGGREGATED_RESOURCES - before.len()),
                |j: int| entry_of(answers.last(), answers.len() - 1, j),
            ),
        }
    }
}

pub open spec fn entries(placed: Seq<Placed>) -> Seq<Entry> {
    placed.map_values(|p: Placed| p@)
}

proof fn lemma_admitted(resources: Seq<Listed>, room: int)
    ensures
        admitted(resources, room) <= resources.len(),
        room >= 0 ==> admitted(resources, room) <= room,
        forall|j: int|
            0 <= j < admitted(resources, room) ==> encode_utf8((#[trigger] resources[j]).uri@).len()
                <= MAX_CHILD_URI,
    decreases resources.len(),
{
    if resources.len() > 0 {
        lemma_admitted(resources.drop_first(), room - 1);
        assert forall|j: int| 0 <= j < admitted(resources, room) implies encode_utf8(
            (#[trigger] resources[j]).uri@,
        ).len() <= MAX_CHILD_URI by {
            if j > 0 {
                assert(resources.drop_first()[j - 1] == resources[j]);
            }
        }
    }
}

fn list_child(out: &mut Vec<Placed>, child: &str, at: usize, resources: &Vec<Listed>)
    ensures
        entries(final(out)@) == entries(old(out)@) + Seq::new(
            admitted(resources@, MAX_AGGREGATED_RESOURCES - old(out)@.len()),
            |j: int|
                Entry {
                    answer: at as int,
                    place: j,
                    uri: scoped(child@, resources@[j].uri@),
                    name: child@ + ":"@ + resources@[j].name@,
                },
        ),
{
    let ghost before = out@;
    let ghost make = |j: int|
        Entry {
            answer: at as int,
            place: j,
            uri: scoped(child@, resources@[j].uri@),
            name: child@ + ":"@ + resources@[j].name@,
        };
    let ghost room = MAX_AGGREGATED_RESOURCES - before.len();
    let mut i: usize = 0;
    assert(resources@.skip(0) =~= resources@);
    assert(entries(out@) =~= entries(before) + Seq::new(0, make));
    while i < resources.len() && out.len() < MAX_AGGREGATED_RESOURCES && byte_len(
        &resources[i].uri,
    ) <= MAX_CHILD_URI
        invariant
            i <= resources.len(),
            before == old(out)@,
            out@.len() == before.len() + i,
            room == MAX_AGGREGATED_RESOURCES - before.len(),
            make == (|j: int|
                Entry {
                    answer: at as int,
                    place: j,
                    uri: scoped(child@, resources@[j].uri@),
                    name: child@ + ":"@ + resources@[j].name@,
                }),
            entries(out@) == entries(before) + Seq::new(i as nat, make),
            admitted(resources@, room) == i + admitted(resources@.skip(i as int), room - i),
        decreases resources.len() - i,
    {
        let uri = gateway_resource_uri(child, &resources[i].uri);
        let mut name = glue(child, ":");
        name.append(&resources[i].name);
        let placed = Placed { answer: at, place: i, uri, name };
        assert(placed@ == make(i as int));
        let ghost last = out@;
        out.push(placed);
        proof {
            assert(entries(out@) =~= entries(last).push(make(i as int)));
            assert(Seq::new((i + 1) as nat, make) =~= Seq::new(i as nat, make).push(make(i as int)));
            assert(resources@.skip(i as int).drop_first() =~= resources@.skip(i + 1));
        }
        i = i + 1;
    }
    assert(admitted(resources@.skip(i as int), room - i) == 0);
}

/// Lists the resources of all children that answered.
pub fn list_resources(answers: &Vec<Answer>) -> (r: Vec<Placed>)
    ensures
        entries(r@) == listing(answers@),
        r@.len() <= 256,
        forall|k: int|
            #![trigger r@[k]]
            0 <= k < r@.len() ==> {
                let answer = answers@[r@[k].answer as int];
                &&& r@[k].answer < answers@.len()
                &&& answer.resources is Some
                &&& r@[k].place < answer.resources->0@.len()
                &&& r@[k].name@ == answer.child@ + ":"@
                    + answer.resources->0@[r@[k].place as int].name@
                &&& r@[k].uri@ == SCHEME@ + answer.child@ + seq!['/'] + hex(
                    encode_utf8(answer.resources->0@[r@[k].place as int].uri@),
                )
            },
{
    let mut out: Vec<Placed> = Vec::new();
    let mut i: usize = 0;
    assert(entries(out@) =~= listing(answers@.take(0)));
    while i < answers.len()
        invariant
            i <= answers.len(),
            entries(out@) == listing(answers@.take(i as int)),
        decreases answers.len() - i,
    {
        let ghost upto = answers@.take(i + 1);
        assert(upto.drop_last() =~= answers@.take(i as int));
        assert(entries(out@).len() == out@.len());
        if let Some(resources) = &answers[i].resources {
            let ghost before = entries(out@);
            list_child(&mut out, &answers[i].child, i, resources);
            assert(entries(out@) =~= listing(upto));
        }
        i = i + 1;
    }
    assert(answers@.take(i as int) =~= answers@);
    proof {
        assert(entries(out@).len() == out@.len());
        law_listing_is_bounded_and_leads_to_its_resources(answers@, 0);
        assert forall|k: int|
            #![trigger out@[k]]
            0 <= k < out@.len() implies ({
            let answer = answers@[out@[k].answer as int];
            &&& out@[k].answer < answers@.len()
            &&& answer.resources is Some
            &&& out@[k].place < answer.resources->0@.len()
            &&& out@[k].name@ == answer.child@ + ":"@
                + answer.resources->0@[out@[k].place as int].name@
            &&& out@[k].uri@ == SCHEME@ + answer.child@ + seq!['/'] + hex(
                encode_utf8(answer.resources->0@[out@[k].place as int].uri@),
            )
        }) by {
            assert(entries(out@)[k] == out@[k]@);
            law_entries_are_named_by_their_resource(answers@, k);
        }
    }
    out
}

/// The listing is bounded, and every entry with an address leads to the resource that it stands for.
pub proof fn law_listing_is_bounded_and_leads_to_its_resources(answers: Seq<Answer>, k: int)
    ensures
        listing(answers).len() <= MAX_AGGREGATED_RESOURCES,
        0 <= k < listing(answers).len() ==> ({
            let entry = listing(answers)[k];
            let answer = answers[entry.answer];
            &&& 0 <= entry.answer < answers.len()
            &&& answer.resources matches Some(resources) && 0 <= entry.place < resources@.len() && (
            named_within(answer.child@, MAX_TOOL_NAME as int) && encode_utf8(
                resources@[entry.place].uri@,
            ).len() > 0 ==> leads_to(
                entry.uri,
                answer.child@,
                resources@[entry.place].uri@,
            ))
        }),
    decreases answers.len(),
{
    if answers.len() > 0 {
        let before = listing(answers.drop_last());
        law_listing_is_bounded_and_leads_to_its_resources(answers.drop_last(), k);
        if let Some(resources) = answers.last().resources {
            let room = MAX_AGGREGATED_RESOURCES - before.len();
            lemma_admitted(resources@, room);
            if before.len() <= k < listing(answers).len() {
                let j = k - before.len();
                assert(listing(answers)[k] == entry_of(answers.last(), answers.len() - 1, j));
                let child = answers.last().child@;
                let uri = resources@[j].uri@;
                if named_within(child, MAX_TOOL_NAME as int) && encode_utf8(uri).len() > 0 {
                    law_address_leads_back(child, uri);
                }
            }
        }
        if 0 <= k < before.len() {
            assert(listing(answers)[k] == before[k]);
            assert(answers.drop_last()[before[k].answer] == answers[before[k].answer]);
        }
    }
}

/// Why a resource was not read.
#[derive(Debug, PartialEq, Eq)]
pub enum ReadError {
    UnknownResource,
    ChildUnavailable,
    TimedOut,
    Failed(String),
    TooLarge,
}

/// How an error is reported to the client.
#[derive(Debug, Clone, Copy, PartialEq, Eq, Structural)]
pub enum ErrorClass {
    ResourceNotFound,
    InternalError,
    InvalidParams,
}

impl ReadError {
    pub open spec fn text(self) -> Seq<char> {
        match self {
            ReadError::UnknownResource => "unknown Gateway resource"@,
            ReadError::ChildUnavailable => "Gateway resource child is unavailable"@,
            ReadError::TimedOut => "Gateway resource read timed out"@,
            ReadError::Failed(error) => "Gateway resource read failed: "@ + error@,
            ReadError::TooLarge => "Gateway resource response exceeds 1 MiB bound"@,
        }
    }

    pub fn message(&self) -> (r: String)
        ensures
            r@ == self.text(),
    {
        match self {
            ReadError::UnknownResource => "unknown Gateway resource".to_owned(),
            ReadError::ChildUnavailable => "Gateway resource child is unavailable".to_owned(),
            ReadError::TimedOut => "Gateway resource read timed out".to_owned(),
            ReadError::Failed(error) => glue("Gateway resource read failed: ", error),
            ReadError::TooLarge => "Gateway resource response exceeds 1 MiB bound".to_owned(),
        }
    }

    pub fn class(&self) -> (r: ErrorClass)
        ensures
            r == match self {
                ReadError::UnknownResource | ReadError::ChildUnavailable =>
                    ErrorClass::ResourceNotFound,
                ReadError::TimedOut | ReadError::Failed(_) => ErrorClass::InternalError,
                ReadError::TooLarge => ErrorClass::InvalidParams,
            },
    {
        match self {
            ReadError::UnknownResource | ReadError::ChildUnavailable =>
                ErrorClass::ResourceNotFound,
            ReadError::TimedOut | ReadError::Failed(_) => ErrorClass::InternalError,
            ReadError::TooLarge => ErrorClass::InvalidParams,
        }
    }
}

/// The running child to ask for a resource, and the address to ask it for.
pub fn resource_target<V>(children: &NameMap<V>, uri: &str) -> (r: Result<
    (String, String),
    ReadError,
>)
    ensures
        r == Err::<(String, String), ReadError>(ReadError::UnknownResource) <==> !exists|
            child: Seq<char>,
            resource: Seq<char>,
        | #[trigger]
            leads_to(uri@, child, resource),
        r == Err::<(String, String), ReadError>(ReadError::ChildUnavailable) <==> exists|
            child: Seq<char>,
            resource: Seq<char>,
        | #[trigger]
            leads_to(uri@, child, resource) && !children@.contains_key(child),
        r matches Err(e) ==> e is UnknownResource || e is ChildUnavailable,
        r matches Ok(target) ==> leads_to(uri@, target.0@, target.1@) && children@.contains_key(
            target.0@,
        ),
{
    match parse_gateway_resource_uri(uri) {
        None => Err(ReadError::UnknownResource),
        Some((child, resource)) => {
            proof {
                assert forall|c: Seq<char>, u: Seq<char>| #[trigger]
                    leads_to(uri@, c, u) implies c == child@ by {
                    law_addresses_are_unambiguous(uri@, c, u, child@, resource@);
                }
            }
            if children.contains_key(&child) {
                Ok((child, resource))
            } else {
                assert(leads_to(uri@, child@, resource@));
                Err(ReadError::ChildUnavailable)
            }
        },
    }
}

/// What a child did when it was asked for a resource.
#[derive(Debug, PartialEq, Eq)]
pub enum ReadOutcome {
    TimedOut,
    Failed(String),
    /// It answered; the number of bytes of the encoded answer, if it could be encoded.
    Answered(Option<usize>),
}

/// Whether the child's answer is passed on.
pub fn check_read(outcome: ReadOutcome) -> (r: Result<(), ReadError>)
    ensures
        r is Ok <==> (outcome matches ReadOutcome::Answered(Some(bytes)) && bytes <= 1_048_576),
        r == match outcome {
            ReadOutcome::TimedOut => Err::<(), ReadError>(ReadError::TimedOut),
            ReadOutcome::Failed(error) => Err(ReadError::Failed(error)),
            ReadOutcome::Answered(None) => Err(ReadError::TooLarge),
            ReadOutcome::Answered(Some(bytes)) => if bytes > MAX_RESOURCE_BYTES {
                Err(ReadError::TooLarge)
            } else {
                Ok(())
            },
        },
{
    match outcome {
        ReadOutcome::TimedOut => Err(ReadError::TimedOut),
        ReadOutcome::Failed(error) => Err(ReadError::Failed(error)),
        ReadOutcome::Answered(None) => Err(ReadError::TooLarge),
        ReadOutcome::Answered(Some(bytes)) => {
            if bytes > MAX_RESOURCE_BYTES {
                Err(ReadError::TooLarge)
            } else {
                Ok(())
            }
        },
    }
}

/// What a part of an answer says of where it comes from.
#[derive(Debug, PartialEq, Eq)]
pub enum ContentUri {
    Text(String),
    Blob(String),
    Other,
}

/// The parts of a passed-on answer name the resource by the gateway's address.
pub fn rescope(content: &ContentUri, uri: &str) -> (r: ContentUri)
    ensures
        match *content {
            ContentUri::Text(_) => r matches ContentUri::Text(u) && u@ == uri@,
            ContentUri::Blob(_) => r matches ContentUri::Blob(u) && u@ == uri@,
            ContentUri::Other => r == ContentUri::Other,
        },
{
    match content {
        ContentUri::Text(_) => ContentUri::Text(uri.to_owned()),
        ContentUri::Blob(_) => ContentUri::Blob(uri.to_owned()),
        ContentUri::Other => ContentUri::Other,
    }
}

/// Each entry of the listing is addressed and named by its child and by the very resource of the child's answer that it
/// stands for: its name is the child's, a colon and the name that the child gives the resource.
pub proof fn law_entries_are_named_by_their_resource(answers: Seq<Answer>, k: int)
    requires
        0 <= k < listing(answers).len(),
    ensures
        ({
            let entry = listing(answers)[k];
            let answer = answers[entry.answer];
            &&& 0 <= entry.answer < answers.len()
            &&& answer.resources is Some
            &&& 0 <= entry.place < answer.resources->0@.len()
            &&& entry.name == answer.child@ + ":"@ + answer.resources->0@[entry.place].name@
            &&& entry.uri == SCHEME@ + answer.child@ + seq!['/'] + hex(
                encode_utf8(answer.resources->0@[entry.place].uri@),
            )
            &&& encode_utf8(answer.resources->0@[entry.place].uri@).len() <= 2048
        }),
    decreases answers.len(),
{
    let before = listing(answers.drop_last());
    if k < before.len() {
        law_entries_are_named_by_their_resource(answers.drop_last(), k);
        assert(answers.drop_last()[before[k].answer] == answers[before[k].answer]);
    } else {
        let resources = answers.last().resources->0@;
        lemma_admitted(resources, MAX_AGGREGATED_RESOURCES - before.len());
        assert(resources[k - before.len()] == resources[k - before.len()]);
    }
}

/// The listing goes child by child and resource by resource, without leaving one of a child out before another: the
/// entry after one is either the next resource of the same child, or the first of a later one.
pub proof fn law_the_listing_is_in_order(answers: Seq<Answer>, k: int)
    requires
        0 <= k < listing(answers).len() - 1,
    ensures
        ({
            let entry = listing(answers)[k];
            let next = listing(answers)[k + 1];
            ||| next.answer == entry.answer && next.place == entry.place + 1
            ||| next.answer > entry.answer && next.place == 0
        }),
    decreases answers.len(),
{
    let before = listing(answers.drop_last());
    if k + 1 < before.len() {
        law_the_listing_is_in_order(answers.drop_last(), k);
    } else if k + 1 == before.len() {
        law_entries_are_named_by_their_resource(answers.drop_last(), k);
    }
}

/// Every resource of a child that answered is listed, unless the listing is full, or the address that the child gives
/// that resource or one before it is too long.
pub proof fn law_resources_are_listed_while_there_is_room(
    answers: Seq<Answer>,
    answer: int,
    place: int,
)
    requires
        0 <= answer < answers.len(),
        answers[answer].resources is Some,
        0 <= place < answers[answer].resources->0@.len(),
        forall|j: int|
            0 <= j <= place ==> encode_utf8(
                (#[trigger] answers[answer].resources->0@[j]).uri@,
            ).len() <= 2048,
        listing(answers).len() < 256,
    ensures
        exists|k: int|
            0 <= k < listing(answers).len() && (#[trigger] listing(answers)[k]).answer == answer
                && listing(answers)[k].place == place,
    decreases answers.len(),
{
    let before = listing(answers.drop_last());
    let all = listing(answers);
    if answer < answers.len() - 1 {
        assert(answers.drop_last()[answer] == answers[answer]);
        law_resources_are_listed_while_there_is_room(answers.drop_last(), answer, place);
        let k = choose|k: int|
            0 <= k < before.len() && (#[trigger] before[k]).answer == answer && before[k].place
                == place;
        assert(all[k] == before[k]);
    } else {
        let resources = answers.last().resources->0@;
        let room = MAX_AGGREGATED_RESOURCES - before.len();
        lemma_short_addresses_are_admitted(resources, room, place);
        assert(all.len() == before.len() + admitted(resources, room));
        assert(all[before.len() + place].place == place);
    }
}

proof fn lemma_short_addresses_are_admitted(resources: Seq<Listed>, room: int, place: int)
    requires
        0 <= place < resources.len(),
        forall|j: int|
            0 <= j <= place ==> encode_utf8((#[trigger] resources[j]).uri@).len() <= 2048,
    ensures
        admitted(resources, room) > place || admitted(resources, room) >= room,
    decreases resources.len(),
{
    assert(encode_utf8(resources[0].uri@).len() <= 2048);
    if room > 0 && place > 0 {
        assert forall|j: int| 0 <= j <= place - 1 implies encode_utf8(
            (#[trigger] resources.drop_first()[j]).uri@,
        ).len() <= 2048 by {
            assert(resources.drop_first()[j] == resources[j + 1]);
        }
        lemma_short_addresses_are_admitted(resources.drop_first(), room - 1, place - 1);
    }
}

/// What is told of each error.
pub proof fn law_read_errors_are_told_in_words(error: ReadError)
    ensures
        match error {
            ReadError::UnknownResource => error.text() == "unknown Gateway resource"@,
            ReadError::ChildUnavailable => error.text() == "Gateway resource child is unavailable"@,
            ReadError::TimedOut => error.text() == "Gateway resource read timed out"@,
            ReadError::Failed(reason) => error.text() == "Gateway resource read failed: "@ + reason@,
            ReadError::TooLarge => error.text() == "Gateway resource response exceeds 1 MiB bound"@,
        },
{
}

/// The gateway's address of a resource is made of the scheme, the name of the child, a slash, and the child's address
/// in hexadecimal digits; a text of that form is one, and nothing else is.
pub proof fn law_addresses_are_made_of_scheme_child_and_digits(
    text: Seq<char>,
    child: Seq<char>,
    uri: Seq<char>,
)
    ensures
        scoped(child, uri) == "gateway-resource://"@ + child + seq!['/'] + hex(encode_utf8(uri)),
        leads_to(text, child, uri) <==> exists|encoded: Seq<char>|
            {
                &&& #[trigger] is_hex(encoded)
                &&& text == "gateway-resource://"@ + child + seq!['/'] + encoded
                &&& named_within(child, 256)
                &&& 0 < encoded.len() <= 4096
                &&& valid_utf8(unhex(encoded))
                &&& uri == decode_utf8(unhex(encoded))
            },
{
    let n = SCHEME@.len() as int;
    if leads_to(text, child, uri) {
        let encoded = choose|encoded: Seq<char>| #[trigger]
            addresses(text, child, encoded) && uri == decode_utf8(unhex(encoded));
        assert(text =~= text.take(n) + text.skip(n));
        assert(text =~= "gateway-resource://"@ + child + seq!['/'] + encoded);
        assert(is_hex(encoded));
    }
    if exists|encoded: Seq<char>|
        {
            &&& #[trigger] is_hex(encoded)
            &&& text == "gateway-resource://"@ + child + seq!['/'] + encoded
            &&& named_within(child, 256)
            &&& 0 < encoded.len() <= 4096
            &&& valid_utf8(unhex(encoded))
            &&& uri == decode_utf8(unhex(encoded))
        } {
        let encoded = choose|encoded: Seq<char>|
            {
                &&& #[trigger] is_hex(encoded)
                &&& text == "gateway-resource://"@ + child + seq!['/'] + encoded
                &&& named_within(child, 256)
                &&& 0 < encoded.len() <= 4096
                &&& valid_utf8(unhex(encoded))
                &&& uri == decode_utf8(unhex(encoded))
            };
        lemma_names_have_no_slash(child);
        assert(text.take(n) =~= SCHEME@);
        assert(text.skip(n) =~= child + seq!['/'] + encoded);
        assert(addresses(text, child, encoded));
    }
}

} // verus!
