//! The authorization gate.
//!
//! Every request passes this gate before it reaches a handler. A request
//! for a public route passes at once, and its token, if it carries one, is
//! not looked at. Any other request must carry the token of a valid
//! session in its authorization header, which reads `<scheme> <token>`.
//! A decision is final: a request that was turned away comes again with
//! a fresh token, or not at all.

use vstd::prelude::*;
use vstd::slice::{slice_subrange, slice_to_vec};
use vstd::utf8::*;
use crate::clock::{unix_now, LATEST};
use crate::error::{AuthError, StoreUnavailable};
use crate::store::{valid_subject, TokenStore, Validation};
use crate::record::SessionView;
use crate::token::Token;
use crate::whitelist::WhitelistRegistry;

verus! {

/// The byte that parts the scheme from the token: a space.
pub const SEPARATOR: u8 = 32;

/// What a request that passed may rely on.
#[derive(Debug, PartialEq, Eq)]
pub enum Access {
    /// The route is public: nobody asked who is calling.
    Public,
    /// The request carried a valid token, issued for this subject.
    Authenticated(String),
}

/// What an `Access` says.
pub enum AccessView {
    Public,
    Authenticated(Seq<char>),
}

impl View for Access {
    type V = AccessView;

    open spec fn view(&self) -> AccessView {
        match self {
            Access::Public => AccessView::Public,
            Access::Authenticated(subject) => AccessView::Authenticated(subject@),
        }
    }
}

/// The token that an authorization header presents: all that follows its
/// first space. A header without a space presents none, and neither does
/// one that starts with a space, for want of a scheme.
pub open spec fn bearer_of(header: Seq<u8>) -> Option<Seq<u8>> {
    match header.index_of_first(SEPARATOR) {
        Some(i) => if i > 0 {
            Some(header.subrange(i + 1, header.len() as int))
        } else {
            None
        },
        None => None,
    }
}

/// The token that a request presents, where its authorization header may
/// be missing.
pub open spec fn presented(authorization: Option<Seq<char>>) -> Option<Seq<u8>> {
    match authorization {
        Some(header) => bearer_of(encode_utf8(header)),
        None => None,
    }
}

/// The decision on a request. A public route passes. Any other passes
/// where the request presents a token that is valid at the given time, and
/// is turned away as carrying an invalid token where it does not.
pub open spec fn decision(
    whitelist: Set<(Seq<char>, Seq<char>)>,
    sessions: Map<Seq<u8>, SessionView>,
    method: Seq<char>,
    path: Seq<char>,
    authorization: Option<Seq<char>>,
    now: u64,
) -> Result<AccessView, AuthError> {
    if whitelist.contains((method, path)) {
        Ok(AccessView::Public)
    } else {
        match presented(authorization) {
            Some(token) => match valid_subject(sessions, token, now) {
                Some(subject) => Ok(AccessView::Authenticated(subject)),
                None => Err(AuthError::InvalidToken),
            },
            None => Err(AuthError::InvalidToken),
        }
    }
}

/// The text of a header that may be missing.
pub open spec fn header_text(authorization: Option<&str>) -> Option<Seq<char>> {
    match authorization {
        Some(header) => Some(header@),
        None => None,
    }
}

/// What an outcome says.
pub open spec fn outcome_view(outcome: Result<Access, AuthError>) -> Result<AccessView, AuthError> {
    match outcome {
        Ok(access) => Ok(access@),
        Err(e) => Err(e),
    }
}

/// A public route passes, whatever the request carries: no header, a
/// malformed one, or a token of any kind.
pub proof fn lemma_public_route_passes(
    whitelist: Set<(Seq<char>, Seq<char>)>,
    sessions: Map<Seq<u8>, SessionView>,
    method: Seq<char>,
    path: Seq<char>,
    authorization: Option<Seq<char>>,
    now: u64,
)
    requires
        whitelist.contains((method, path)),
    ensures
        decision(whitelist, sessions, method, path, authorization, now) == Ok::<
            AccessView,
            AuthError,
        >(AccessView::Public),
{
}

/// A header without a space presents no token, and neither does one that
/// starts with a space.
pub proof fn lemma_malformed_header(header: Seq<u8>)
    requires
        !header.contains(SEPARATOR) || (header.len() > 0 && header[0] == SEPARATOR),
    ensures
        bearer_of(header) is None,
{
    header.index_of_first_ensures(SEPARATOR);
}

/// A request for a route that is not public, whose authorization header
/// is missing or malformed, is turned away as carrying an invalid token,
/// whatever the store holds.
pub proof fn lemma_missing_token_rejected(
    whitelist: Set<(Seq<char>, Seq<char>)>,
    sessions: Map<Seq<u8>, SessionView>,
    method: Seq<char>,
    path: Seq<char>,
    authorization: Option<Seq<char>>,
    now: u64,
)
    requires
        !whitelist.contains((method, path)),
        authorization matches Some(header) ==> {
            ||| !encode_utf8(header).contains(SEPARATOR)
            ||| (encode_utf8(header).len() > 0 && encode_utf8(header)[0] == SEPARATOR)
        },
    ensures
        decision(whitelist, sessions, method, path, authorization, now) == Err::<
            AccessView,
            AuthError,
        >(AuthError::InvalidToken),
{
    if let Some(header) = authorization {
        lemma_malformed_header(encode_utf8(header));
    }
}

/// Reads the token out of an authorization header.
pub fn bearer_token(header: &str) -> (token: Option<Token>)
    ensures
        match token {
            Some(t) => bearer_of(encode_utf8(header@)) == Some(t@),
            None => bearer_of(encode_utf8(header@)) is None,
        },
{
    let bytes = header.as_bytes();
    let mut i: usize = 0;
    while i < bytes.len()
        invariant
            bytes@ == encode_utf8(header@),
            i <= bytes@.len(),
            forall|j: int| 0 <= j < i ==> bytes@[j] != SEPARATOR,
        decreases bytes@.len() - i,
    {
        if bytes[i] == SEPARATOR {
            proof {
                bytes@.index_of_first_ensures(SEPARATOR);
                assert(bytes@.contains(bytes@[i as int]));
                assert(bytes@.index_of_first(SEPARATOR) == Some(i as int));
            }
            if i == 0 {
                return None;
            }
            return Some(Token::from_bytes(slice_to_vec(slice_subrange(bytes, i + 1, bytes.len()))));
        }
        i += 1;
    }
    proof {
        bytes@.index_of_first_ensures(SEPARATOR);
    }
    None
}

/// Turns the verdict of the store on a presented token into the outcome
/// for the request. A failed store is reported as such, never as an invalid
/// token.
pub fn conclude(verdict: Result<Validation, StoreUnavailable>) -> (outcome: Result<
    Access,
    AuthError,
>)
    ensures
        outcome_view(outcome) == match verdict {
            Ok(v) => match v@ {
                Some(subject) => Ok::<AccessView, AuthError>(AccessView::Authenticated(subject)),
                None => Err::<AccessView, AuthError>(AuthError::InvalidToken),
            },
            Err(_) => Err::<AccessView, AuthError>(AuthError::StoreUnavailable),
        },
{
    match verdict {
        Ok(Validation::Valid(subject)) => Ok(Access::Authenticated(subject)),
        Ok(Validation::Invalid) => Err(AuthError::InvalidToken),
        Err(_) => Err(AuthError::StoreUnavailable),
    }
}

/// The line that the access log holds for a request: where it came from,
/// its method and its path, with a space between them. It is written for
/// every request, whatever is decided on it.
pub fn access_entry(source: &str, method: &str, path: &str) -> (entry: String)
    ensures
        entry@ == source@ + " "@ + method@ + " "@ + path@,
{
    source.to_owned().concat(" ").concat(method).concat(" ").concat(path)
}

/// The authorization gate: the registry of public routes, fixed when it
/// is built.
pub struct RequireAuth {
    whitelist: WhitelistRegistry,
}

impl View for RequireAuth {
    type V = Set<(Seq<char>, Seq<char>)>;

    /// The public routes.
    closed spec fn view(&self) -> Set<(Seq<char>, Seq<char>)> {
        self.whitelist@
    }
}

impl RequireAuth {
    /// A gate that lets the routes of the registry pass unasked.
    pub fn new(whitelist: WhitelistRegistry) -> (gate: Self)
        ensures
            gate@ == whitelist@,
    {
        RequireAuth { whitelist }
    }

    /// Whether the route is public.
    pub fn is_public(&self, method: &str, path: &str) -> (public: bool)
        ensures
            public == self@.contains((method@, path@)),
    {
        self.whitelist.contains(method, path)
    }

    /// Decides on a request at the given time. The store is asked only
    /// for a route that is not public and a request that presents a
    /// token, so only then can the outcome be that the store failed.
    pub fn authorize_at(
        &self,
        store: &TokenStore,
        method: &str,
        path: &str,
        authorization: Option<&str>,
        now: u64,
    ) -> (outcome: Result<Access, AuthError>)
        ensures
            outcome matches Err(AuthError::StoreUnavailable) ==> {
                &&& !self@.contains((method@, path@))
                &&& presented(header_text(authorization)) is Some
            },
            !(outcome matches Err(AuthError::StoreUnavailable)) ==> outcome_view(outcome)
                == decision(self@, store@, method@, path@, header_text(authorization), now),
    {
        if self.whitelist.contains(method, path) {
            return Ok(Access::Public);
        }
        let token = match authorization {
            Some(header) => bearer_token(header),
            None => None,
        };
        match token {
            Some(token) => conclude(store.validate_at(&token, now)),
            None => Err(AuthError::InvalidToken),
        }
    }

    /// Decides on a request at the present time.
    pub fn authorize(
        &self,
        store: &TokenStore,
        method: &str,
        path: &str,
        authorization: Option<&str>,
    ) -> (outcome: Result<Access, AuthError>)
        ensures
            outcome matches Err(AuthError::StoreUnavailable) ==> {
                &&& !self@.contains((method@, path@))
                &&& presented(header_text(authorization)) is Some
            },
            !(outcome matches Err(AuthError::StoreUnavailable)) ==> exists|now: u64|
                now <= LATEST && outcome_view(outcome) == #[trigger] decision(
                    self@,
                    store@,
                    method@,
                    path@,
                    header_text(authorization),
                    now,
                ),
    {
        let now = unix_now();
        self.authorize_at(store, method, path, authorization, now)
    }
}

} // verus!
