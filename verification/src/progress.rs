//! Progress of calls: the children report under tokens of the gateway's own, the client hears of it under its own.
use crate::ids::{canonical, random_id};
use crate::name_map::NameMap;
use crate::text::{bounded_prefix, cut, glue};
use vstd::prelude::*;

verus! {

/// The most calls that report progress at once.
pub const MAX_ACTIVE_PROGRESS: usize = 256;

/// The most bytes of a progress message that are passed on.
pub const MAX_PROGRESS_MESSAGE_BYTES: usize = 256;

/// What a progress report is known by.
#[derive(Debug, PartialEq, Eq)]
pub enum Token {
    Number(i64),
    Text(String),
}

/// What a token holds.
pub enum TokenText {
    Number(i64),
    Text(Seq<char>),
}

impl View for Token {
    type V = TokenText;

    open spec fn view(&self) -> TokenText {
        match self {
            Token::Number(n) => TokenText::Number(*n),
            Token::Text(text) => TokenText::Text(text@),
        }
    }
}

impl Clone for Token {
    fn clone(&self) -> (r: Self)
        ensures
            r == *self,
    {
        match self {
            Token::Number(n) => Token::Number(*n),
            Token::Text(text) => Token::Text(text.clone()),
        }
    }
}

/// The tokens of the clients by the tokens of the children.
pub type Mappings = Map<Seq<char>, Token>;

/// Passes progress on while the calls are under way.
pub struct Relay {
    mappings: NameMap<Token>,
}

impl View for Relay {
    type V = Mappings;

    closed spec fn view(&self) -> Mappings {
        self.mappings@
    }
}

/// The right to report progress of one call. Its view is the child's token.
#[derive(Debug)]
pub struct Lease {
    child_token: String,
}

impl View for Lease {
    type V = Seq<char>;

    closed spec fn view(&self) -> Seq<char> {
        self.child_token@
    }
}

/// A report as the client gets it.
#[derive(Debug, PartialEq, Eq)]
pub struct Report {
    pub token: Token,
    pub message: Option<String>,
}

impl Relay {
    #[verifier::type_invariant]
    spec fn bounded(self) -> bool {
        self.mappings@.dom().finite() && self.mappings@.len() <= MAX_ACTIVE_PROGRESS
    }

    /// The relay that passes nothing on.
    pub fn new() -> (r: Self)
        ensures
            r@ == Map::<Seq<char>, Token>::empty(),
    {
        Relay { mappings: NameMap::new() }
    }

    /// The calls that report progress.
    pub fn len(&self) -> (r: usize)
        ensures
            r == self@.len(),
            r <= MAX_ACTIVE_PROGRESS,
    {
        proof {
            use_type_invariant(self);
        }
        self.mappings.len()
    }

    /// Whether no call reports progress.
    pub fn is_empty(&self) -> (r: bool)
        ensures
            r == (self@ == Map::<Seq<char>, Token>::empty()),
    {
        self.mappings.is_empty()
    }

    /// Has the child report under `gateway-` and `id` what the client wants to hear under its own token,
    /// if there is room.
    pub fn register_as(&mut self, id: &str, upstream_token: Token) -> (r: Option<Lease>)
        ensures
            r is Some <==> old(self)@.len() < MAX_ACTIVE_PROGRESS,
            r is None ==> final(self)@ == old(self)@,
            r matches Some(lease) ==> lease@ == "gateway-"@ + id@ && final(self)@ == old(self)@.insert(lease@, upstream_token),
    {
        proof {
            use_type_invariant(&*self);
        }
        if self.mappings.len() >= MAX_ACTIVE_PROGRESS {
            return None;
        }
        let child_token = glue("gateway-", id);
        let mut mappings: NameMap<Token> = NameMap::new();
        std::mem::swap(&mut mappings, &mut self.mappings);
        mappings.insert(child_token.clone(), upstream_token);
        self.mappings = mappings;
        Some(Lease { child_token })
    }

    /// Has the child report under a new token what the client wants to hear under its own, if there is room.
    pub fn register(&mut self, upstream_token: Token) -> (r: Option<Lease>)
        ensures
            r is Some <==> old(self)@.len() < MAX_ACTIVE_PROGRESS,
            r is None ==> final(self)@ == old(self)@,
            r matches Some(lease) ==> final(self)@ == old(self)@.insert(lease@, upstream_token)
                && exists|id: Seq<char>| #[trigger] canonical(id) && lease@ == "gateway-"@ + id,
    {
        let id = random_id();
        self.register_as(&id, upstream_token)
    }

    /// The report as it goes on to the client, if the call is under way. A long message is cut.
    pub fn forward(&self, token: &Token, message: Option<String>) -> (r: Option<Report>)
        ensures
            match token@ {
                TokenText::Number(_) => r is None,
                TokenText::Text(name) => {
                    &&& r is Some <==> self@.contains_key(name)
                    &&& r matches Some(report) ==> report.token == self@[name] && match message {
                        None => report.message is None,
                        Some(text) => report.message matches Some(cut_text) && cut_text@
                            == bounded_prefix(text@, MAX_PROGRESS_MESSAGE_BYTES as int),
                    }
                },
            },
    {
        match token {
            Token::Number(_) => None,
            Token::Text(name) => match self.mappings.get(name) {
                None => None,
                Some(upstream_token) => {
                    let message = match message {
                        None => None,
                        Some(text) => Some(truncate(&text)),
                    };
                    Some(Report { token: upstream_token.clone(), message })
                },
            },
        }
    }
}

impl Lease {
    /// The token that the child reports under.
    pub fn child_token(&self) -> (r: Token)
        ensures
            r@ == TokenText::Text(self@),
    {
        Token::Text(self.child_token.clone())
    }

    /// The call is over: nothing of it is passed on any more.
    pub fn release(self, relay: &mut Relay)
        ensures
            final(relay)@ == old(relay)@.remove(self@),
    {
        proof {
            use_type_invariant(&*relay);
        }
        let mut mappings: NameMap<Token> = NameMap::new();
        std::mem::swap(&mut mappings, &mut relay.mappings);
        mappings.remove(&self.child_token);
        relay.mappings = mappings;
    }
}

/// The longest beginning of a message that takes no more bytes than are passed on, in whole characters.
pub fn truncate(value: &str) -> (r: String)
    ensures
        r@ == bounded_prefix(value@, MAX_PROGRESS_MESSAGE_BYTES as int),
{
    cut(value, MAX_PROGRESS_MESSAGE_BYTES)
}

/// A call that was registered under a new token and released leaves the relay as it was.
pub proof fn law_released_calls_leave_no_trace(
    mappings: Mappings,
    child_token: Seq<char>,
    upstream: Token,
)
    requires
        !mappings.contains_key(child_token),
    ensures
        mappings.insert(child_token, upstream).remove(child_token) == mappings,
{
    assert(mappings.insert(child_token, upstream).remove(child_token) =~= mappings);
}

/// Two calls under different identifiers report under different tokens.
pub proof fn law_child_tokens_are_distinct(id: Seq<char>, other: Seq<char>)
    requires
        "gateway-"@ + id == "gateway-"@ + other,
    ensures
        id == other,
{
    let n = "gateway-"@.len() as int;
    assert(id =~= ("gateway-"@ + id).skip(n));
    assert(other =~= ("gateway-"@ + other).skip(n));
}

/// Up to two hundred and fifty-six calls report progress at once, and of a message as many bytes go on. A token shows
/// what it holds.
pub proof fn law_progress_is_bounded(token: Token)
    ensures
        MAX_ACTIVE_PROGRESS == 256,
        MAX_PROGRESS_MESSAGE_BYTES == 256,
        match token {
            Token::Number(n) => token@ == TokenText::Number(n),
            Token::Text(text) => token@ == TokenText::Text(text@),
        },
{
}

} // verus!
