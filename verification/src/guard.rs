//! Answers of the children are held to the limits of the policy; one that exceeds them is replaced by a short account.
use crate::artifact;
use crate::json::{byte_seqs, elements, json_elements, json_member, json_text, member, string};
use crate::policy::Payload;
use crate::reply::{says, tool_error, ToolReply};
use crate::telemetry::GuardAction;
use crate::text::{bounded_prefix, byte_len, cut};
use vstd::prelude::*;
use vstd::utf8::*;

verus! {

/// A part of an answer: a text, or something else of so many bytes.
#[derive(Debug, PartialEq, Eq)]
pub enum Part {
    Text(String),
    Other(usize),
}

pub enum Piece {
    Text(Seq<char>),
    Other(nat),
}

impl View for Part {
    type V = Piece;

    open spec fn view(&self) -> Piece {
        match self {
            Part::Text(text) => Piece::Text(text@),
            Part::Other(bytes) => Piece::Other(*bytes as nat),
        }
    }
}

pub open spec fn pieces(parts: Seq<Part>) -> Seq<Piece> {
    parts.map_values(|part: Part| part@)
}

/// A limit that is exceeded: which one, how many bytes there are, and how many are allowed.
pub struct Excess {
    pub kind: Seq<char>,
    pub actual: nat,
    pub limit: nat,
}

/// The limit that a part exceeds, if it does.
pub open spec fn piece_excess(piece: Piece, limits: Payload) -> Option<Excess> {
    match piece {
        Piece::Text(text) => if encode_utf8(text).len() > limits.text_preview_bytes {
            Some(
                Excess {
                    kind: "text"@,
                    actual: encode_utf8(text).len(),
                    limit: limits.text_preview_bytes as nat,
                },
            )
        } else {
            None
        },
        Piece::Other(bytes) => if bytes > limits.binary_bytes {
            Some(
                Excess { kind: "binary"@, actual: bytes, limit: limits.binary_bytes as nat },
            )
        } else {
            None
        },
    }
}

/// The limit that the first part exceeds that exceeds one.
pub open spec fn pieces_excess(parts: Seq<Piece>, limits: Payload) -> Option<Excess>
    decreases parts.len(),
{
    if parts.len() == 0 {
        None
    } else if piece_excess(parts[0], limits) is Some {
        piece_excess(parts[0], limits)
    } else {
        pieces_excess(parts.drop_first(), limits)
    }
}

/// The first limit that an answer exceeds: on the whole, on its structured content, on its parts one after the other.
pub open spec fn excess(encoded: nat, structured: Option<nat>, parts: Seq<Piece>, limits: Payload) -> Option<
    Excess,
> {
    if encoded > limits.response_bytes {
        Some(
            Excess { kind: "response"@, actual: encoded, limit: limits.response_bytes as nat },
        )
    } else if structured matches Some(bytes) && bytes > limits.structured_bytes {
        Some(
            Excess {
                kind: "structured"@,
                actual: structured->0,
                limit: limits.structured_bytes as nat,
            },
        )
    } else {
        pieces_excess(parts, limits)
    }
}

/// The beginning of the first text of an answer.
pub open spec fn preview(parts: Seq<Piece>, max_bytes: int) -> Option<Seq<char>>
    decreases parts.len(),
{
    if parts.len() == 0 {
        None
    } else {
        match parts[0] {
            Piece::Text(text) => Some(bounded_prefix(text, max_bytes)),
            Piece::Other(_) => preview(parts.drop_first(), max_bytes),
        }
    }
}

pub type Violation = (&'static str, usize, usize);

pub open spec fn is_excess(violation: Violation, excess: Excess) -> bool {
    violation.0@ == excess.kind && violation.1 == excess.actual && violation.2 == excess.limit
}

fn part_violation(part: &Part, limits: &Payload) -> (r: Option<Violation>)
    ensures
        r is Some <==> piece_excess(part@, *limits) is Some,
        r matches Some(violation) ==> is_excess(violation, piece_excess(part@, *limits)->0),
{
    match part {
        Part::Text(text) => {
            let bytes: usize = byte_len(text);
            if bytes > limits.text_preview_bytes {
                Some(("text", bytes, limits.text_preview_bytes))
            } else {
                None
            }
        },
        Part::Other(bytes) => {
            if *bytes > limits.binary_bytes {
                Some(("binary", *bytes, limits.binary_bytes))
            } else {
                None
            }
        },
    }
}

/// The first limit that an answer exceeds, of which the sizes and the parts are known.
pub fn budget_violation(
    encoded: usize,
    structured: Option<usize>,
    parts: &Vec<Part>,
    limits: &Payload,
) -> (r: Option<Violation>)
    ensures
        ({
            let bytes = match structured {
                None => None,
                Some(bytes) => Some(bytes as nat),
            };
            let found = excess(encoded as nat, bytes, pieces(parts@), *limits);
            &&& r is Some <==> found is Some
            &&& r matches Some(violation) ==> is_excess(violation, found->0)
        }),
{
    if encoded > limits.response_bytes {
        return Some(("response", encoded, limits.response_bytes));
    }
    if let Some(bytes) = structured {
        if bytes > limits.structured_bytes {
            return Some(("structured", bytes, limits.structured_bytes));
        }
    }
    let ghost all = pieces(parts@);
    let mut i: usize = 0;
    assert(all.skip(0) =~= all);
    while i < parts.len()
        invariant
            i <= parts.len(),
            encoded <= limits.response_bytes,
            structured matches Some(bytes) ==> bytes <= limits.structured_bytes,
            all == pieces(parts@),
            pieces_excess(all, *limits) == pieces_excess(all.skip(i as int), *limits),
        decreases parts.len() - i,
    {
        assert(all.skip(i as int).drop_first() =~= all.skip(i + 1));
        assert(all.skip(i as int)[0] == parts@[i as int]@);
        let found = part_violation(&parts[i], limits);
        if found.is_some() {
            return found;
        }
        i = i + 1;
    }
    None
}

/// The beginning of the first text among the parts of an answer.
pub fn preview_of(parts: &Vec<Part>, max_bytes: usize) -> (r: Option<String>)
    ensures
        r is Some <==> preview(pieces(parts@), max_bytes as int) is Some,
        r matches Some(text) ==> preview(pieces(parts@), max_bytes as int) == Some(text@),
{
    let ghost all = pieces(parts@);
    let mut i: usize = 0;
    assert(all.skip(0) =~= all);
    while i < parts.len()
        invariant
            i <= parts.len(),
            all == pieces(parts@),
            preview(all, max_bytes as int) == preview(all.skip(i as int), max_bytes as int),
        decreases parts.len() - i,
    {
        assert(all.skip(i as int).drop_first() =~= all.skip(i + 1));
        assert(all.skip(i as int)[0] == parts@[i as int]@);
        if let Part::Text(text) = &parts[i] {
            return Some(cut(text, max_bytes));
        }
        i = i + 1;
    }
    None
}

/// The structured content of an answer, under either spelling of its key, in the value that the answer stands for.
pub open spec fn structured_content(value: Seq<u8>) -> Option<Seq<u8>> {
    if json_member(value, "structuredContent"@) is Some {
        json_member(value, "structuredContent"@)
    } else {
        json_member(value, "structured_content"@)
    }
}

/// The bytes that the structured content takes, if there is any.
pub open spec fn structured_bytes(value: Option<Seq<u8>>) -> Option<nat> {
    match value {
        None => None,
        Some(value) => match structured_content(value) {
            None => None,
            Some(content) => Some(content.len()),
        },
    }
}

/// A part of an answer: a text where it has one, otherwise its size.
pub open spec fn piece_of(part: Seq<u8>) -> Piece {
    match json_member(part, "text"@) {
        None => Piece::Other(part.len()),
        Some(text) => match json_text(text) {
            None => Piece::Other(part.len()),
            Some(said) => Piece::Text(said),
        },
    }
}

/// The parts of an answer; none where there is no value, or the value has no list of them.
pub open spec fn parts_of(value: Option<Seq<u8>>) -> Seq<Piece> {
    match value {
        None => Seq::empty(),
        Some(value) => match json_member(value, "content"@) {
            None => Seq::empty(),
            Some(content) => match json_elements(content) {
                None => Seq::empty(),
                Some(parts) => parts.map_values(|part: Seq<u8>| piece_of(part)),
            },
        },
    }
}

pub open spec fn optional_bytes(bytes: Option<&Vec<u8>>) -> Option<Seq<u8>> {
    match bytes {
        None => None,
        Some(bytes) => Some(bytes@),
    }
}

fn read_part(part: &Vec<u8>) -> (r: Part)
    ensures
        r@ == piece_of(part@),
{
    match member(part, "text") {
        None => Part::Other(part.len()),
        Some(text) => match string(&text) {
            None => Part::Other(part.len()),
            Some(said) => Part::Text(said),
        },
    }
}

fn read_parts(value: Option<&Vec<u8>>) -> (r: Vec<Part>)
    ensures
        pieces(r@) == parts_of(optional_bytes(value)),
{
    let mut out: Vec<Part> = Vec::new();
    assert(pieces(out@) =~= Seq::<Piece>::empty());
    let value = match value {
        None => {
            return out;
        },
        Some(value) => value,
    };
    let content = match member(value, "content") {
        None => {
            return out;
        },
        Some(content) => content,
    };
    let parts = match elements(&content) {
        None => {
            return out;
        },
        Some(parts) => parts,
    };
    let ghost all = byte_seqs(parts@);
    let ghost wanted = all.map_values(|part: Seq<u8>| piece_of(part));
    let mut i: usize = 0;
    while i < parts.len()
        invariant
            i <= parts.len(),
            all == byte_seqs(parts@),
            wanted == all.map_values(|part: Seq<u8>| piece_of(part)),
            pieces(out@) == wanted.take(i as int),
        decreases parts.len() - i,
    {
        let part = read_part(&parts[i]);
        let ghost before = out@;
        let ghost piece = part@;
        out.push(part);
        assert(pieces(out@) =~= pieces(before).push(piece));
        assert(wanted.take(i + 1) =~= wanted.take(i as int).push(wanted[i as int]));
        i = i + 1;
    }
    assert(wanted.take(i as int) =~= wanted);
    out
}

/// The first limit that an answer exceeds, if it exceeds one. `encoded` is the answer as it is sent, which is held to
/// the limit on the whole; `value` is the encoding of the JSON value that the answer stands for, if it has one, by which
/// its parts are measured.
pub fn response_budget_violation(
    encoded: &Vec<u8>,
    value: Option<&Vec<u8>>,
    limits: &Payload,
) -> (r: Option<Violation>)
    ensures
        ({
            let value = optional_bytes(value);
            let found = excess(encoded@.len(), structured_bytes(value), parts_of(value), *limits);
            &&& r is Some <==> found is Some
            &&& r matches Some(violation) ==> is_excess(violation, found->0)
        }),
{
    let structured = match value {
        None => None,
        Some(value) => match member(value, "structuredContent") {
            Some(content) => Some(content.len()),
            None => match member(value, "structured_content") {
                Some(content) => Some(content.len()),
                None => None,
            },
        },
    };
    let parts = read_parts(value);
    budget_violation(encoded.len(), structured, &parts, limits)
}

/// The beginning of the first text of an answer, which is given by the encoding of its JSON value.
pub fn safe_text_preview(value: Option<&Vec<u8>>, max_bytes: usize) -> (r: Option<String>)
    ensures
        r is Some <==> preview(parts_of(optional_bytes(value)), max_bytes as int) is Some,
        r matches Some(text) ==> preview(parts_of(optional_bytes(value)), max_bytes as int) == Some(
            text@,
        ),
{
    let parts = read_parts(value);
    preview_of(&parts, max_bytes)
}

/// An answer with a limit exceeded: the limit, the beginning of its first text, and whether the whole is kept as an
/// artifact.
#[derive(Debug, PartialEq, Eq)]
pub struct Held {
    pub violation: Violation,
    pub preview: Option<String>,
    pub keep: bool,
}

/// What becomes of a child's answer.
#[derive(Debug, PartialEq, Eq)]
pub enum Verdict {
    /// It is passed on; its size and what is noted.
    Pass(usize, GuardAction),
    /// It cannot be encoded.
    Unreadable,
    /// It is replaced by an account of it.
    Hold(Held),
}

/// Decides on a child's answer, of which the violation and the preview are known. Without limits every answer passes.
pub fn judge(
    limits: Option<(Payload, artifact::Limits)>,
    artifact_enabled: bool,
    encoded: Option<usize>,
    violation: Option<Violation>,
    preview: Option<String>,
) -> (r: Verdict)
    ensures
        match limits {
            None => r == Verdict::Pass(
                match encoded {
                    None => 0,
                    Some(bytes) => bytes,
                },
                GuardAction::NotApplied,
            ),
            Some((_, artifacts)) => match encoded {
                None => r == Verdict::Unreadable,
                Some(bytes) => match violation {
                    None => r == Verdict::Pass(bytes, GuardAction::Passed),
                    Some(violation) => r matches Verdict::Hold(held) && held.violation == violation
                        && held.preview == preview && held.keep == (artifact_enabled && bytes
                        <= artifacts.max_item_bytes),
                },
            },
        },
{
    match limits {
        None => Verdict::Pass(
            match encoded {
                None => 0,
                Some(bytes) => bytes,
            },
            GuardAction::NotApplied,
        ),
        Some((_, artifacts)) => match encoded {
            None => Verdict::Unreadable,
            Some(bytes) => match violation {
                None => Verdict::Pass(bytes, GuardAction::Passed),
                Some(violation) => Verdict::Hold(
                    Held {
                        violation,
                        preview,
                        keep: artifact_enabled && bytes <= artifacts.max_item_bytes,
                    },
                ),
            },
        },
    }
}

/// Decides on a child's answer. `encoded` is the answer as it is sent, if it can be encoded; `value` is the encoding of
/// the JSON value that it stands for, if it has one. Without limits every answer passes.
pub fn guard_child_response(
    limits: Option<(Payload, artifact::Limits)>,
    artifact_enabled: bool,
    encoded: Option<&Vec<u8>>,
    value: Option<&Vec<u8>>,
) -> (r: Verdict)
    ensures
        match limits {
            None => r == Verdict::Pass(
                match encoded {
                    None => 0,
                    Some(encoded) => encoded@.len() as usize,
                },
                GuardAction::NotApplied,
            ),
            Some((payload, artifacts)) => match encoded {
                None => r == Verdict::Unreadable,
                Some(encoded) => {
                    let value = optional_bytes(value);
                    let shown = preview(parts_of(value), payload.text_preview_bytes as int);
                    match excess(
                        encoded@.len(),
                        structured_bytes(value),
                        parts_of(value),
                        payload,
                    ) {
                        None => r == Verdict::Pass(encoded@.len() as usize, GuardAction::Passed),
                        Some(found) => r matches Verdict::Hold(held) && is_excess(
                            held.violation,
                            found,
                        ) && held.keep == (artifact_enabled && encoded@.len()
                            <= artifacts.max_item_bytes) && (match held.preview {
                            None => shown is None,
                            Some(text) => shown == Some(text@),
                        }),
                    }
                },
            },
        },
        limits matches Some((payload, _)) ==> encoded matches Some(encoded) ==> (r is Pass <==> ({
            &&& encoded@.len() <= payload.response_bytes
            &&& value matches Some(value) ==> {
                &&& json_member(value@, "structuredContent"@) matches Some(content)
                    ==> content.len() <= payload.structured_bytes
                &&& json_member(value@, "structuredContent"@) is None && json_member(
                    value@,
                    "structured_content"@,
                ) is Some ==> json_member(value@, "structured_content"@)->0.len()
                    <= payload.structured_bytes
                &&& json_member(value@, "content"@) matches Some(content) ==> json_elements(
                    content,
                ) matches Some(elements) ==> forall|i: int|
                    0 <= i < elements.len() ==> match json_member(#[trigger] elements[i], "text"@) {
                            Some(text) if json_text(text) is Some => encode_utf8(
                                json_text(text)->0,
                            ).len() <= payload.text_preview_bytes,
                            _ => elements[i].len() <= payload.binary_bytes,
                        }
            }
        })),
        r matches Verdict::Hold(held) ==> held.violation.1 > held.violation.2,
{
    proof {
        if let Some((payload, _)) = limits {
            if let Some(encoded) = encoded {
                let value = optional_bytes(value);
                law_answers_pass_exactly_within_limits(encoded@.len(), value, payload);
                if excess(
                    encoded@.len(),
                    structured_bytes(value),
                    parts_of(value),
                    payload,
                ) is Some {
                    law_an_excess_is_told_as_it_is(
                        encoded@.len(),
                        structured_bytes(value),
                        parts_of(value),
                        payload,
                    );
                }
            }
        }
    }
    match encoded {
        None => judge(limits, artifact_enabled, None, None, None),
        Some(encoded) => match limits {
            None => judge(limits, artifact_enabled, Some(encoded.len()), None, None),
            Some((payload, _)) => {
                let violation = response_budget_violation(encoded, value, &payload);
                let beginning = if violation.is_some() {
                    safe_text_preview(value, payload.text_preview_bytes)
                } else {
                    None
                };
                judge(limits, artifact_enabled, Some(encoded.len()), violation, beginning)
            },
        },
    }
}

/// The size and the action that are noted of a child's answer: what is passed on is noted as it was judged, an answer
/// that is held with the size that it had, and one that cannot be encoded as if nothing had come.
pub fn noted_response(verdict: &Verdict, encoded: Option<&Vec<u8>>) -> (r: (usize, GuardAction))
    ensures
        r == match *verdict {
            Verdict::Pass(bytes, action) => (bytes, action),
            Verdict::Unreadable => (0usize, GuardAction::NotApplied),
            Verdict::Hold(_) => (
                match encoded {
                    None => 0usize,
                    Some(encoded) => encoded@.len() as usize,
                },
                GuardAction::Guarded,
            ),
        },
{
    match verdict {
        Verdict::Pass(bytes, action) => (*bytes, *action),
        Verdict::Unreadable => (0, GuardAction::NotApplied),
        Verdict::Hold(_) => (
            match encoded {
                None => 0,
                Some(encoded) => encoded.len(),
            },
            GuardAction::Guarded,
        ),
    }
}

/// What is answered in place of a child's answer that cannot be encoded.
pub fn unreadable_reply() -> (r: ToolReply)
    ensures
        says(r, "Gateway cannot encode child response"@),
{
    tool_error("Gateway cannot encode child response".to_owned())
}

/// An answer that exceeds no limit keeps each of them.
pub proof fn law_only_answers_within_limits_pass(
    encoded: nat,
    structured: Option<nat>,
    parts: Seq<Piece>,
    limits: Payload,
)
    requires
        excess(encoded, structured, parts, limits) is None,
    ensures
        encoded <= limits.response_bytes,
        structured matches Some(bytes) ==> bytes <= limits.structured_bytes,
        forall|i: int| 0 <= i < parts.len() ==> piece_excess(#[trigger] parts[i], limits) is None,
{
    lemma_no_piece_in_excess(parts, limits);
}

proof fn lemma_no_piece_in_excess(parts: Seq<Piece>, limits: Payload)
    requires
        pieces_excess(parts, limits) is None,
    ensures
        forall|i: int| 0 <= i < parts.len() ==> piece_excess(#[trigger] parts[i], limits) is None,
    decreases parts.len(),
{
    if parts.len() > 0 {
        lemma_no_piece_in_excess(parts.drop_first(), limits);
        assert forall|i: int| 0 <= i < parts.len() implies piece_excess(
            #[trigger] parts[i],
            limits,
        ) is None by {
            if i > 0 {
                assert(parts.drop_first()[i - 1] == parts[i]);
            }
        }
    }
}

/// The preview of an answer takes no more bytes than allowed.
pub proof fn law_previews_are_bounded(parts: Seq<Piece>, max_bytes: int)
    requires
        max_bytes >= 0,
    ensures
        preview(parts, max_bytes) matches Some(text) ==> encode_utf8(text).len() <= max_bytes,
    decreases parts.len(),
{
    if parts.len() > 0 {
        match parts[0] {
            Piece::Text(text) => {
                crate::text::law_bounded_prefix_is_longest(text, max_bytes);
            },
            Piece::Other(_) => {
                law_previews_are_bounded(parts.drop_first(), max_bytes);
            },
        }
    }
}

proof fn lemma_parts_are_the_elements(value: Option<Seq<u8>>, i: int)
    ensures
        match value {
            None => parts_of(value).len() == 0,
            Some(value) => match json_member(value, "content"@) {
                None => parts_of(Some(value)).len() == 0,
                Some(content) => match json_elements(content) {
                    None => parts_of(Some(value)).len() == 0,
                    Some(elements) => {
                        &&& parts_of(Some(value)).len() == elements.len()
                        &&& 0 <= i < elements.len() ==> parts_of(Some(value))[i] == match json_member(
                            elements[i],
                            "text"@,
                        ) {
                            Some(text) if json_text(text) is Some => Piece::Text(
                                json_text(text)->0,
                            ),
                            _ => Piece::Other(elements[i].len()),
                        }
                    },
                },
            },
        },
{
}

/// An answer exceeds no limit exactly if the whole, its structured content and every element of its content keep theirs:
/// an element with a text by the bytes of the text, any other by its own bytes.
pub proof fn law_answers_pass_exactly_within_limits(
    encoded: nat,
    value: Option<Seq<u8>>,
    limits: Payload,
)
    ensures
        excess(encoded, structured_bytes(value), parts_of(value), limits) is None <==> ({
            &&& encoded <= limits.response_bytes
            &&& value matches Some(value) ==> {
                &&& json_member(value, "structuredContent"@) matches Some(content)
                    ==> content.len() <= limits.structured_bytes
                &&& json_member(value, "structuredContent"@) is None && json_member(
                    value,
                    "structured_content"@,
                ) is Some ==> json_member(value, "structured_content"@)->0.len()
                    <= limits.structured_bytes
                &&& json_member(value, "content"@) matches Some(content) ==> json_elements(
                    content,
                ) matches Some(elements) ==> forall|i: int|
                    0 <= i < elements.len() ==> match json_member(#[trigger] elements[i], "text"@) {
                            Some(text) if json_text(text) is Some => encode_utf8(
                                json_text(text)->0,
                            ).len() <= limits.text_preview_bytes,
                            _ => elements[i].len() <= limits.binary_bytes,
                        }
            }
        }),
{
    let parts = parts_of(value);
    lemma_parts_are_the_elements(value, 0);
    if excess(encoded, structured_bytes(value), parts, limits) is None {
        lemma_no_piece_in_excess(parts, limits);
        if let Some(value) = value {
            if let Some(content) = json_member(value, "content"@) {
                if let Some(elements) = json_elements(content) {
                    assert forall|i: int| 0 <= i < elements.len() implies match json_member(#[trigger] elements[i], "text"@) {
                            Some(text) if json_text(text) is Some => encode_utf8(
                                json_text(text)->0,
                            ).len() <= limits.text_preview_bytes,
                            _ => elements[i].len() <= limits.binary_bytes,
                        } by {
                        lemma_parts_are_the_elements(Some(value), i);
                        assert(piece_excess(parts[i], limits) is None);
                    }
                }
            }
        }
    }
    if ({
            &&& encoded <= limits.response_bytes
            &&& value matches Some(value) ==> {
                &&& json_member(value, "structuredContent"@) matches Some(content)
                    ==> content.len() <= limits.structured_bytes
                &&& json_member(value, "structuredContent"@) is None && json_member(
                    value,
                    "structured_content"@,
                ) is Some ==> json_member(value, "structured_content"@)->0.len()
                    <= limits.structured_bytes
                &&& json_member(value, "content"@) matches Some(content) ==> json_elements(
                    content,
                ) matches Some(elements) ==> forall|i: int|
                    0 <= i < elements.len() ==> match json_member(#[trigger] elements[i], "text"@) {
                            Some(text) if json_text(text) is Some => encode_utf8(
                                json_text(text)->0,
                            ).len() <= limits.text_preview_bytes,
                            _ => elements[i].len() <= limits.binary_bytes,
                        }
            }
    }) {
        assert forall|i: int| 0 <= i < parts.len() implies piece_excess(
            #[trigger] parts[i],
            limits,
        ) is None by {
            lemma_parts_are_the_elements(value, i);
            let elements = json_elements(json_member(value->0, "content"@)->0)->0;
            assert(elements[i] == elements[i]);
        }
        lemma_pieces_within_limits(parts, limits);
    }
}

proof fn lemma_pieces_within_limits(parts: Seq<Piece>, limits: Payload)
    requires
        forall|i: int| 0 <= i < parts.len() ==> piece_excess(#[trigger] parts[i], limits) is None,
    ensures
        pieces_excess(parts, limits) is None,
    decreases parts.len(),
{
    if parts.len() > 0 {
        let rest = parts.drop_first();
        assert(piece_excess(parts[0], limits) is None);
        assert forall|i: int| 0 <= i < rest.len() implies piece_excess(
            #[trigger] rest[i],
            limits,
        ) is None by {
            assert(rest[i] == parts[i + 1]);
        }
        lemma_pieces_within_limits(rest, limits);
    }
}

proof fn lemma_first_piece_in_excess(parts: Seq<Piece>, limits: Payload) -> (at: int)
    requires
        pieces_excess(parts, limits) is Some,
    ensures
        0 <= at < parts.len(),
        piece_excess(parts[at], limits) == pieces_excess(parts, limits),
        forall|i: int| 0 <= i < at ==> piece_excess(#[trigger] parts[i], limits) is None,
    decreases parts.len(),
{
    if piece_excess(parts[0], limits) is Some {
        0
    } else {
        let at = lemma_first_piece_in_excess(parts.drop_first(), limits);
        assert forall|i: int| 0 <= i < at + 1 implies piece_excess(
            #[trigger] parts[i],
            limits,
        ) is None by {
            if i > 0 {
                assert(parts.drop_first()[i - 1] == parts[i]);
            }
        }
        at + 1
    }
}

/// What is told of an answer that exceeds a limit is true of it: so many bytes as are told, more than the limit that is
/// told, of the whole, or of the structured content where the whole keeps its limit, or else of the first part that
/// exceeds its own.
pub proof fn law_an_excess_is_told_as_it_is(
    encoded: nat,
    structured: Option<nat>,
    parts: Seq<Piece>,
    limits: Payload,
)
    requires
        excess(encoded, structured, parts, limits) is Some,
    ensures
        ({
            let told = excess(encoded, structured, parts, limits)->0;
            &&& told.actual > told.limit
            &&& encoded > limits.response_bytes ==> told.kind == "response"@ && told.actual
                == encoded && told.limit == limits.response_bytes
            &&& encoded <= limits.response_bytes && structured is Some && structured->0
                > limits.structured_bytes ==> told.kind == "structured"@ && told.actual
                == structured->0 && told.limit == limits.structured_bytes
            &&& encoded <= limits.response_bytes && (structured is None || structured->0
                <= limits.structured_bytes) ==> exists|at: int|
                0 <= at < parts.len() && (match #[trigger] parts[at] {
                    Piece::Text(text) => told.kind == "text"@ && told.actual == encode_utf8(
                        text,
                    ).len() && told.limit == limits.text_preview_bytes,
                    Piece::Other(bytes) => told.kind == "binary"@ && told.actual == bytes
                        && told.limit == limits.binary_bytes,
                }) && forall|i: int|
                    0 <= i < at ==> match #[trigger] parts[i] {
                        Piece::Text(text) => encode_utf8(text).len() <= limits.text_preview_bytes,
                        Piece::Other(bytes) => bytes <= limits.binary_bytes,
                    }
        }),
{
    if pieces_excess(parts, limits) is Some {
        let at = lemma_first_piece_in_excess(parts, limits);
        assert forall|i: int| 0 <= i < at implies match #[trigger] parts[i] {
            Piece::Text(text) => encode_utf8(text).len() <= limits.text_preview_bytes,
            Piece::Other(bytes) => bytes <= limits.binary_bytes,
        } by {
            assert(piece_excess(parts[i], limits) is None);
        }
        assert(parts[at] == parts[at]);
    }
}

/// The preview of an answer is the beginning of its first text, as long as it may be; there is none exactly where no
/// part is a text.
pub proof fn law_the_preview_begins_the_first_text(parts: Seq<Piece>, max_bytes: int)
    requires
        max_bytes >= 0,
    ensures
        match preview(parts, max_bytes) {
            None => forall|i: int| 0 <= i < parts.len() ==> (#[trigger] parts[i]) is Other,
            Some(shown) => exists|at: int|
                0 <= at < parts.len() && (#[trigger] parts[at] matches Piece::Text(text) && {
                    &&& shown.len() <= text.len()
                    &&& shown == text.take(shown.len() as int)
                    &&& encode_utf8(shown).len() <= max_bytes
                    &&& shown.len() < text.len() ==> encode_utf8(
                        text.take(shown.len() as int + 1),
                    ).len() > max_bytes
                }) && forall|i: int| 0 <= i < at ==> (#[trigger] parts[i]) is Other,
        },
    decreases parts.len(),
{
    if parts.len() > 0 {
        match parts[0] {
            Piece::Text(text) => {
                crate::text::law_bounded_prefix_is_longest(text, max_bytes);
                assert(parts[0] is Text);
            },
            Piece::Other(_) => {
                let rest = parts.drop_first();
                law_the_preview_begins_the_first_text(rest, max_bytes);
                match preview(parts, max_bytes) {
                    None => {
                        assert forall|i: int| 0 <= i < parts.len() implies (
                        #[trigger] parts[i]) is Other by {
                            if i > 0 {
                                assert(rest[i - 1] == parts[i]);
                            }
                        }
                    },
                    Some(shown) => {
                        let at = choose|at: int|
                            0 <= at < rest.len() && (#[trigger] rest[at] matches Piece::Text(text)
                                && {
                                &&& shown.len() <= text.len()
                                &&& shown == text.take(shown.len() as int)
                                &&& encode_utf8(shown).len() <= max_bytes
                                &&& shown.len() < text.len() ==> encode_utf8(
                                    text.take(shown.len() as int + 1),
                                ).len() > max_bytes
                            }) && forall|i: int| 0 <= i < at ==> (#[trigger] rest[i]) is Other;
                        assert(parts[at + 1] == rest[at]);
                        assert forall|i: int| 0 <= i < at + 1 implies (
                        #[trigger] parts[i]) is Other by {
                            if i > 0 {
                                assert(rest[i - 1] == parts[i]);
                            }
                        }
                    },
                }
            },
        }
    }
}

/// The parts of an answer are shown one by one: a text by its characters, anything else by its size.
pub proof fn law_parts_are_shown_one_by_one(parts: Seq<Part>, i: int)
    requires
        0 <= i < parts.len(),
    ensures
        pieces(parts).len() == parts.len(),
        match parts[i] {
            Part::Text(text) => pieces(parts)[i] == Piece::Text(text@),
            Part::Other(bytes) => pieces(parts)[i] == Piece::Other(bytes as nat),
        },
{
}

} // verus!
