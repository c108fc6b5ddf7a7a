//! The token store.
//!
//! The store owns the database and is the only one to write to it. A
//! session is valid from the moment it is issued until its time of expiry,
//! which is fixed at issue and never extended. Validity is always computed
//! from the stored time of expiry: a session that has expired is invalid
//! whether or not anyone has removed it yet.

use vstd::prelude::*;
use vstd::slice::slice_to_vec;
use vstd::utf8::*;
use crate::clock::{unix_now, LATEST};
use crate::error::{IssueError, StoreUnavailable};
use crate::kv::{db_entries, db_get, db_insert_new, db_remove, db_snapshot, is_snapshot};
use crate::record::{
    decode_fields, decode_session, encode_fields, encode_session, is_session_value,
    lemma_decode_encode, stored_expires_at, stored_subject_bytes, SessionRecord, SessionView,
};
use crate::token::{hex_bytes, is_issued_form, lemma_hex_is_issued_form, random_block, Token};

verus! {

/// How many tokens `issue` draws before it gives up on finding a free one.
pub const MAX_ISSUE_ATTEMPTS: u32 = 8;

/// The sessions among the entries of a database, each under its token.
/// An entry whose value holds no session is not among them.
pub open spec fn sessions_of(entries: Map<Seq<u8>, Seq<u8>>) -> Map<Seq<u8>, SessionView> {
    Map::new(
        |token: Seq<u8>| entries.contains_key(token) && is_session_value(entries[token]),
        |token: Seq<u8>| decode_session(token, entries[token]).unwrap(),
    )
}

/// The subject of the token's session where the token is valid at the
/// given time: where it has a session that has not expired.
pub open spec fn valid_subject(
    sessions: Map<Seq<u8>, SessionView>,
    token: Seq<u8>,
    now: u64,
) -> Option<Seq<char>> {
    if sessions.contains_key(token) && now < sessions[token].expires_at {
        Some(sessions[token].subject)
    } else {
        None
    }
}

/// Whether the token has a session that has expired at the given time.
pub open spec fn is_expired(sessions: Map<Seq<u8>, SessionView>, token: Seq<u8>, now: u64) -> bool {
    sessions.contains_key(token) && sessions[token].expires_at <= now
}

/// Whether a stored value holds a session that has expired at the given
/// time.
pub open spec fn is_expired_value(value: Seq<u8>, now: u64) -> bool {
    is_session_value(value) && stored_expires_at(value) <= now
}

/// The tokens of a list, as a set.
pub open spec fn token_set(tokens: Seq<Token>) -> Set<Seq<u8>> {
    Set::new(|token: Seq<u8>| exists|i: int| 0 <= i < tokens.len() && #[trigger] tokens[i]@ == token)
}

/// Whether no token comes twice in a list.
pub open spec fn no_token_twice(tokens: Seq<Token>) -> bool {
    forall|i: int, j: int| 0 <= i < j < tokens.len() ==> #[trigger] tokens[i]@ != #[trigger] tokens[j]@
}

/// The outcome of a validation.
#[derive(Debug, PartialEq, Eq)]
pub enum Validation {
    /// The token is valid, and was issued for this subject.
    Valid(String),
    /// The token is unknown or has expired.
    Invalid,
}

impl View for Validation {
    type V = Option<Seq<char>>;

    open spec fn view(&self) -> Option<Seq<char>> {
        match self {
            Validation::Valid(subject) => Some(subject@),
            Validation::Invalid => None,
        }
    }
}

/// Storing a session adds it to the sessions under its token.
pub proof fn lemma_sessions_insert(
    entries: Map<Seq<u8>, Seq<u8>>,
    token: Seq<u8>,
    subject: Seq<char>,
    issued_at: u64,
    expires_at: u64,
)
    requires
        issued_at < expires_at,
    ensures
        sessions_of(entries.insert(token, encode_session(subject, issued_at, expires_at)))
            == sessions_of(entries).insert(
            token,
            SessionView { token, subject, issued_at, expires_at },
        ),
{
    lemma_decode_encode(token, subject, issued_at, expires_at);
    assert(sessions_of(entries.insert(token, encode_session(subject, issued_at, expires_at)))
        =~= sessions_of(entries).insert(
        token,
        SessionView { token, subject, issued_at, expires_at },
    ));
}

/// Removing an entry removes its session, if it held one.
pub proof fn lemma_sessions_remove(entries: Map<Seq<u8>, Seq<u8>>, token: Seq<u8>)
    ensures
        sessions_of(entries.remove(token)) == sessions_of(entries).remove(token),
{
    assert(sessions_of(entries.remove(token)) =~= sessions_of(entries).remove(token));
}

/// A token validates from the moment it is issued: while the session
/// that was stored under it has not expired, the verdict is valid, with
/// the subject that it was issued for.
pub proof fn lemma_issued_token_is_valid(
    entries: Map<Seq<u8>, Seq<u8>>,
    token: Seq<u8>,
    subject: Seq<char>,
    issued_at: u64,
    expires_at: u64,
    now: u64,
)
    requires
        issued_at < expires_at,
        now < expires_at,
    ensures
        valid_subject(
            sessions_of(entries.insert(token, encode_session(subject, issued_at, expires_at))),
            token,
            now,
        ) == Some(subject),
{
    lemma_sessions_insert(entries, token, subject, issued_at, expires_at);
}

/// A token is invalid from its time of expiry on, whether or not its
/// entry is still stored.
pub proof fn lemma_expired_token_is_invalid(
    entries: Map<Seq<u8>, Seq<u8>>,
    token: Seq<u8>,
    now: u64,
)
    requires
        sessions_of(entries).contains_key(token) ==> sessions_of(entries)[token].expires_at <= now,
    ensures
        valid_subject(sessions_of(entries), token, now) is None,
{
}

/// A token is invalid once it is revoked, at every time.
pub proof fn lemma_revoked_token_is_invalid(
    entries: Map<Seq<u8>, Seq<u8>>,
    token: Seq<u8>,
    now: u64,
)
    ensures
        valid_subject(sessions_of(entries.remove(token)), token, now) is None,
{
}

/// Issuing a token and revoking another leave the verdict on every other
/// token as it was.
pub proof fn lemma_other_tokens_untouched(
    entries: Map<Seq<u8>, Seq<u8>>,
    token: Seq<u8>,
    value: Seq<u8>,
    other: Seq<u8>,
    now: u64,
)
    requires
        other != token,
    ensures
        valid_subject(sessions_of(entries.insert(token, value)), other, now) == valid_subject(
            sessions_of(entries),
            other,
            now,
        ),
        valid_subject(sessions_of(entries.remove(token)), other, now) == valid_subject(
            sessions_of(entries),
            other,
            now,
        ),
{
}

/// No token is issued twice: a token that is issued while an earlier one
/// is still stored differs from it.
pub proof fn lemma_issued_tokens_differ(
    entries: Map<Seq<u8>, Seq<u8>>,
    first: Seq<u8>,
    first_value: Seq<u8>,
    second: Seq<u8>,
)
    requires
        !entries.insert(first, first_value).contains_key(second),
    ensures
        second != first,
{
}

/// Expiry is final: a session that has expired stays expired, and its
/// token stays invalid, at every later time.
pub proof fn lemma_expiry_is_final(
    sessions: Map<Seq<u8>, SessionView>,
    token: Seq<u8>,
    now: u64,
    later: u64,
)
    requires
        is_expired(sessions, token, now),
        now <= later,
    ensures
        is_expired(sessions, token, later),
        valid_subject(sessions, token, later) is None,
{
}

/// The entries after a run of issues: each token stored with its value,
/// in turn.
pub open spec fn after_issues(
    entries: Map<Seq<u8>, Seq<u8>>,
    tokens: Seq<Seq<u8>>,
    values: Seq<Seq<u8>>,
) -> Map<Seq<u8>, Seq<u8>>
    decreases tokens.len(),
{
    if tokens.len() == 0 || values.len() != tokens.len() {
        entries
    } else {
        after_issues(entries, tokens.drop_last(), values.drop_last()).insert(
            tokens.last(),
            values.last(),
        )
    }
}

/// Whether each token of a run of issues was free when its turn came, as
/// `issue` sees to.
pub open spec fn issued_in_turn(
    entries: Map<Seq<u8>, Seq<u8>>,
    tokens: Seq<Seq<u8>>,
    values: Seq<Seq<u8>>,
) -> bool
    decreases tokens.len(),
{
    values.len() == tokens.len() && (tokens.len() == 0 || {
        &&& issued_in_turn(entries, tokens.drop_last(), values.drop_last())
        &&& !after_issues(entries, tokens.drop_last(), values.drop_last()).contains_key(
            tokens.last(),
        )
    })
}

/// However many tokens are issued one after another, no two of them are
/// the same, and none of them was in the store before.
pub proof fn lemma_issued_in_turn_all_differ(
    entries: Map<Seq<u8>, Seq<u8>>,
    tokens: Seq<Seq<u8>>,
    values: Seq<Seq<u8>>,
)
    requires
        issued_in_turn(entries, tokens, values),
    ensures
        forall|i: int, j: int| 0 <= i < j < tokens.len() ==> tokens[i] != tokens[j],
        forall|i: int| 0 <= i < tokens.len() ==> !entries.contains_key(#[trigger] tokens[i]),
        forall|i: int|
            0 <= i < tokens.len() ==> after_issues(entries, tokens, values).contains_key(
                #[trigger] tokens[i],
            ),
        forall|key: Seq<u8>|
            entries.contains_key(key) ==> #[trigger] after_issues(
                entries,
                tokens,
                values,
            ).contains_key(key),
    decreases tokens.len(),
{
    if tokens.len() > 0 {
        let earlier = tokens.drop_last();
        lemma_issued_in_turn_all_differ(entries, earlier, values.drop_last());
        assert forall|i: int, j: int| 0 <= i < j < tokens.len() implies tokens[i] != tokens[j] by {
            assert(tokens[i] == earlier[i]);
            if j < earlier.len() {
                assert(tokens[j] == earlier[j]);
            }
        }
        assert forall|i: int| 0 <= i < tokens.len() implies !entries.contains_key(
            #[trigger] tokens[i],
        ) by {
            if i < earlier.len() {
                assert(tokens[i] == earlier[i]);
            }
        }
        assert forall|i: int| 0 <= i < tokens.len() implies after_issues(
            entries,
            tokens,
            values,
        ).contains_key(#[trigger] tokens[i]) by {
            if i < earlier.len() {
                assert(tokens[i] == earlier[i]);
            }
        }
    }
}

/// The time that a session lasts: a positive number of seconds.
struct Lifetime {
    seconds: u32,
}

impl Lifetime {
    #[verifier::type_invariant]
    spec fn inv(self) -> bool {
        self.seconds > 0
    }

    fn seconds(&self) -> (seconds: u32)
        ensures
            seconds == self.seconds,
            seconds > 0,
    {
        proof {
            use_type_invariant(self);
        }
        self.seconds
    }
}

/// The token store: the database and the time that a session lasts.
pub struct TokenStore {
    db: sled::Db,
    ttl: Lifetime,
}

impl View for TokenStore {
    type V = Map<Seq<u8>, SessionView>;

    /// The sessions that the store holds: those among its entries.
    open spec fn view(&self) -> Map<Seq<u8>, SessionView> {
        sessions_of(self.entries())
    }
}

/// What a validation answers for the value found under a token: valid,
/// with the subject, where the value holds a session that has not expired
/// at the given time.
pub open spec fn verdict_of(value: Seq<u8>, now: u64) -> Option<Seq<char>> {
    if is_session_value(value) && now < stored_expires_at(value) {
        Some(decode_utf8(stored_subject_bytes(value)))
    } else {
        None
    }
}

/// Judges the value found under a token, if any was found.
pub fn judge(found: Option<Vec<u8>>, now: u64) -> (verdict: Validation)
    ensures
        verdict@ == match found {
            Some(value) => verdict_of(value@, now),
            None => None,
        },
{
    match found {
        Some(value) => match decode_fields(value.as_slice()) {
            Some((subject, _, expires_at)) => {
                if now < expires_at {
                    Validation::Valid(subject)
                } else {
                    Validation::Invalid
                }
            },
            None => Validation::Invalid,
        },
        None => Validation::Invalid,
    }
}

/// What each token of a list says, in the order of the list.
pub open spec fn token_views(tokens: Seq<Token>) -> Seq<Seq<u8>> {
    Seq::new(tokens.len(), |i: int| tokens[i]@)
}

/// The keys of the pairs whose value holds a session that has expired at
/// the given time, in the order of the pairs.
pub open spec fn expired_keys(pairs: Seq<(Vec<u8>, Vec<u8>)>, now: u64) -> Seq<Seq<u8>>
    decreases pairs.len(),
{
    if pairs.len() == 0 {
        Seq::empty()
    } else if is_expired_value(pairs.last().1@, now) {
        expired_keys(pairs.drop_last(), now).push(pairs.last().0@)
    } else {
        expired_keys(pairs.drop_last(), now)
    }
}

/// A key is among the expired keys of a list of pairs exactly where one
/// of the pairs has that key and a value that has expired. Where no key
/// comes twice among the pairs, none comes twice among the expired keys.
pub proof fn lemma_expired_keys(pairs: Seq<(Vec<u8>, Vec<u8>)>, now: u64)
    ensures
        forall|key: Seq<u8>| #[trigger]
            expired_keys(pairs, now).contains(key) <==> exists|p: int|
                0 <= p < pairs.len() && #[trigger] pairs[p].0@ == key && is_expired_value(
                    pairs[p].1@,
                    now,
                ),
        (forall|p: int, q: int|
            0 <= p < q < pairs.len() ==> #[trigger] pairs[p].0@ != #[trigger] pairs[q].0@)
            ==> expired_keys(pairs, now).no_duplicates(),
    decreases pairs.len(),
{
    if pairs.len() == 0 {
        assert forall|key: Seq<u8>| !(#[trigger] expired_keys(pairs, now).contains(key)) by {}
    } else {
        let earlier = pairs.drop_last();
        let last = pairs.len() - 1;
        lemma_expired_keys(earlier, now);
        let before = expired_keys(earlier, now);
        let all = expired_keys(pairs, now);
        assert forall|key: Seq<u8>| #[trigger]
            all.contains(key) <==> exists|p: int|
                0 <= p < pairs.len() && #[trigger] pairs[p].0@ == key && is_expired_value(
                    pairs[p].1@,
                    now,
                ) by {
            if all.contains(key) {
                let i = choose|i: int| 0 <= i < all.len() && all[i] == key;
                if i < before.len() {
                    assert(before[i] == key);
                    assert(before.contains(key));
                    let p = choose|p: int|
                        0 <= p < earlier.len() && #[trigger] earlier[p].0@ == key
                            && is_expired_value(earlier[p].1@, now);
                    assert(pairs[p].0@ == key);
                } else {
                    assert(pairs[last].0@ == key);
                }
            }
            if exists|p: int|
                0 <= p < pairs.len() && #[trigger] pairs[p].0@ == key && is_expired_value(
                    pairs[p].1@,
                    now,
                ) {
                let p = choose|p: int|
                    0 <= p < pairs.len() && #[trigger] pairs[p].0@ == key && is_expired_value(
                        pairs[p].1@,
                        now,
                    );
                if p < last {
                    assert(earlier[p].0@ == key);
                    assert(before.contains(key));
                    let i = choose|i: int| 0 <= i < before.len() && before[i] == key;
                    assert(all[i] == key);
                } else {
                    assert(all[all.len() - 1] == key);
                }
            }
        }
        if forall|p: int, q: int|
            0 <= p < q < pairs.len() ==> #[trigger] pairs[p].0@ != #[trigger] pairs[q].0@ {
            assert forall|p: int, q: int| 0 <= p < q < earlier.len() implies #[trigger] earlier[p].0@
                != #[trigger] earlier[q].0@ by {
                assert(pairs[p].0@ != pairs[q].0@);
            }
            assert(before.no_duplicates());
            assert forall|i: int, j: int| 0 <= i < all.len() && 0 <= j < all.len() && i != j implies all[i]
                != all[j] by {
                if i < before.len() && j < before.len() {
                    assert(before[i] != before[j]);
                } else {
                    let k = if i < before.len() {
                        i
                    } else {
                        j
                    };
                    assert(before.contains(before[k]));
                    let p = choose|p: int|
                        0 <= p < earlier.len() && #[trigger] earlier[p].0@ == before[k]
                            && is_expired_value(earlier[p].1@, now);
                    assert(pairs[p].0@ != pairs[last].0@);
                }
            }
        }
    }
}

/// The tokens among the given entries whose sessions have expired at the
/// given time, in the order of the entries.
pub fn expired_among(pairs: &Vec<(Vec<u8>, Vec<u8>)>, now: u64) -> (tokens: Vec<Token>)
    ensures
        token_views(tokens@) == expired_keys(pairs@, now),
{
    let mut tokens: Vec<Token> = Vec::new();
    let mut i: usize = 0;
    assert(pairs@.take(0).len() == 0);
    assert(token_views(tokens@) =~= expired_keys(pairs@.take(0), now));
    while i < pairs.len()
        invariant
            i <= pairs@.len(),
            token_views(tokens@) == expired_keys(pairs@.take(i as int), now),
        decreases pairs@.len() - i,
    {
        let pair = &pairs[i];
        let expired = match decode_fields(pair.1.as_slice()) {
            Some((_, _, expires_at)) => expires_at <= now,
            None => false,
        };
        let ghost before = tokens@;
        if expired {
            tokens.push(Token::from_bytes(slice_to_vec(pair.0.as_slice())));
        }
        proof {
            let longer = pairs@.take(i + 1);
            assert(longer.drop_last() =~= pairs@.take(i as int));
            assert(longer.last() == pairs@[i as int]);
            if expired {
                assert(token_views(tokens@) =~= token_views(before).push(pairs@[i as int].0@));
            }
        }
        i += 1;
    }
    assert(pairs@.take(pairs@.len() as int) =~= pairs@);
    tokens
}

/// What listing the expired returns for each answer of the database: the
/// expired tokens among the entries that it handed out, or that the store
/// is unavailable where the database failed.
pub fn expired_from(pairs: Result<Vec<(Vec<u8>, Vec<u8>)>, sled::Error>, now: u64) -> (listed:
    Result<Vec<Token>, StoreUnavailable>)
    ensures
        match pairs {
            Ok(list) => listed matches Ok(tokens) && token_views(tokens@) == expired_keys(
                list@,
                now,
            ),
            Err(_) => listed is Err,
        },
{
    match pairs {
        Ok(list) => Ok(expired_among(&list, now)),
        Err(_) => Err(StoreUnavailable),
    }
}

/// What follows an attempt at issuing a token.
#[derive(Debug, PartialEq, Eq)]
pub enum NextStep {
    /// The token was stored: hand it out.
    Done(Token),
    /// The token that was drawn is taken: draw another.
    DrawAgain,
    /// Nothing will be issued, for this reason.
    GiveUp(IssueError),
}

/// Decides what follows an attempt at issuing, from the number of
/// attempts made before it and from how it went. A stored token ends the
/// run. A collision calls for another draw, until `MAX_ISSUE_ATTEMPTS`
/// attempts have been made in all; then the run is given up. A failure of
/// the random source or of the database ends the run at once.
pub fn after_attempt(earlier: u32, outcome: Result<Option<Token>, IssueError>) -> (step: NextStep)
    ensures
        step == match outcome {
            Ok(Some(token)) => NextStep::Done(token),
            Ok(None) => if earlier + 1 < MAX_ISSUE_ATTEMPTS {
                NextStep::DrawAgain
            } else {
                NextStep::GiveUp(IssueError::TooManyCollisions)
            },
            Err(e) => NextStep::GiveUp(e),
        },
{
    match outcome {
        Ok(Some(token)) => NextStep::Done(token),
        Ok(None) => if earlier < MAX_ISSUE_ATTEMPTS - 1 {
            NextStep::DrawAgain
        } else {
            NextStep::GiveUp(IssueError::TooManyCollisions)
        },
        Err(e) => NextStep::GiveUp(e),
    }
}

/// What a validation returns for each answer of the database: the
/// judgement on what was found, or that the store is unavailable where
/// the database failed. A failure is never turned into a verdict.
pub fn validation_from(found: Result<Option<Vec<u8>>, sled::Error>, now: u64) -> (verdict: Result<
    Validation,
    StoreUnavailable,
>)
    ensures
        match found {
            Ok(Some(value)) => verdict matches Ok(v) && v@ == verdict_of(value@, now),
            Ok(None) => verdict matches Ok(v) && v@ is None,
            Err(_) => verdict is Err,
        },
{
    match found {
        Ok(found) => Ok(judge(found, now)),
        Err(_) => Err(StoreUnavailable),
    }
}

/// What a lookup returns for each answer of the database: the record that
/// the value found under the token holds, `None` where nothing was found
/// or what was found holds no session, or that the store is unavailable
/// where the database failed.
pub fn record_from(token: &Token, found: Result<Option<Vec<u8>>, sled::Error>) -> (record: Result<
    Option<SessionRecord>,
    StoreUnavailable,
>)
    ensures
        match found {
            Ok(Some(value)) => record matches Ok(r) && match r {
                Some(session) => decode_session(token@, value@) == Some(session@) && session.wf(),
                None => decode_session(token@, value@) is None,
            },
            Ok(None) => record matches Ok(None),
            Err(_) => record is Err,
        },
{
    match found {
        Ok(Some(value)) => Ok(SessionRecord::decode(token.clone(), value.as_slice())),
        Ok(None) => Ok(None),
        Err(_) => Err(StoreUnavailable),
    }
}

/// What storing a session returns for each answer of the database:
/// whether the session was written, or that the store is unavailable
/// where the database failed.
pub fn stored_from(written: Result<bool, sled::Error>) -> (stored: Result<bool, StoreUnavailable>)
    ensures
        match written {
            Ok(done) => stored == Ok::<bool, StoreUnavailable>(done),
            Err(_) => stored is Err,
        },
{
    match written {
        Ok(done) => Ok(done),
        Err(_) => Err(StoreUnavailable),
    }
}

/// What a revocation returns for each answer of the database: success,
/// whether or not there was an entry to remove, or that the store is
/// unavailable where the database failed.
pub fn revoked_from(removed: Result<Option<Vec<u8>>, sled::Error>) -> (done: Result<
    (),
    StoreUnavailable,
>)
    ensures
        done is Ok <==> removed is Ok,
{
    match removed {
        Ok(_) => Ok(()),
        Err(_) => Err(StoreUnavailable),
    }
}

impl TokenStore {
    /// Everything that the database holds, session or not.
    pub closed spec fn entries(&self) -> Map<Seq<u8>, Seq<u8>> {
        db_entries(self.db)
    }

    /// The seconds that a session lasts.
    pub closed spec fn ttl(&self) -> u32 {
        self.ttl.seconds
    }

    /// A store over the given database, whose sessions last `ttl` seconds.
    /// There is no store whose sessions last no time at all. The store
    /// takes the database over: what is said of its entries holds while
    /// nobody else writes to it.
    pub fn new(db: sled::Db, ttl: u32) -> (store: Option<Self>)
        ensures
            store is Some <==> ttl > 0,
            store matches Some(s) ==> s.ttl() == ttl && s.entries() == db_entries(db),
    {
        if ttl == 0 {
            None
        } else {
            Some(TokenStore { db, ttl: Lifetime { seconds: ttl } })
        }
    }

    /// Stores a session for the subject under the given token, issued
    /// now, unless the token is taken. `Ok(true)` says that the session
    /// was stored, `Ok(false)` that the token was taken and nothing
    /// changed.
    pub fn issue_with(&mut self, token: &Token, subject: &str, now: u64) -> (stored: Result<
        bool,
        StoreUnavailable,
    >)
        requires
            now + old(self).ttl() <= u64::MAX,
        ensures
            final(self).ttl() == old(self).ttl(),
            stored matches Ok(true) ==> {
                &&& !old(self).entries().contains_key(token@)
                &&& final(self).entries() == old(self).entries().insert(
                    token@,
                    encode_session(subject@, now, (now + old(self).ttl()) as u64),
                )
                &&& final(self)@ == old(self)@.insert(
                    token@,
                    SessionView {
                        token: token@,
                        subject: subject@,
                        issued_at: now,
                        expires_at: (now + old(self).ttl()) as u64,
                    },
                )
            },
            stored matches Ok(false) ==> {
                &&& old(self).entries().contains_key(token@)
                &&& final(self).entries() == old(self).entries()
            },
            stored is Err ==> {
                ||| final(self).entries() == old(self).entries()
                ||| {
                    &&& !old(self).entries().contains_key(token@)
                    &&& final(self).entries() == old(self).entries().insert(
                        token@,
                        encode_session(subject@, now, (now + old(self).ttl()) as u64),
                    )
                }
            },
    {
        let expires_at = now + self.ttl.seconds() as u64;
        let value = encode_fields(subject, now, expires_at);
        proof {
            lemma_sessions_insert(self.entries(), token@, subject@, now, expires_at);
        }
        stored_from(db_insert_new(&mut self.db, token.as_bytes(), value.as_slice()))
    }

    /// Validates a token at the given time. The session is only read: a
    /// validation never extends it.
    pub fn validate_at(&self, token: &Token, now: u64) -> (verdict: Result<
        Validation,
        StoreUnavailable,
    >)
        ensures
            verdict matches Ok(v) ==> v@ == valid_subject(self@, token@, now),
    {
        validation_from(db_get(&self.db, token.as_bytes()), now)
    }

    /// Validates a token at the present time.
    pub fn validate(&self, token: &Token) -> (verdict: Result<Validation, StoreUnavailable>)
        ensures
            verdict matches Ok(v) ==> exists|now: u64|
                now <= LATEST && v@ == #[trigger] valid_subject(self@, token@, now),
    {
        let now = unix_now();
        self.validate_at(token, now)
    }

    /// The session stored under a token, expired or not.
    pub fn lookup(&self, token: &Token) -> (found: Result<Option<SessionRecord>, StoreUnavailable>)
        ensures
            found matches Ok(Some(record)) ==> self@.contains_key(token@) && self@[token@]
                == record@ && record.wf(),
            found matches Ok(None) ==> !self@.contains_key(token@),
    {
        record_from(token, db_get(&self.db, token.as_bytes()))
    }

    /// Removes the entry under a token at once. Revoking a token that is
    /// not there succeeds and changes nothing.
    pub fn revoke(&mut self, token: &Token) -> (done: Result<(), StoreUnavailable>)
        ensures
            final(self).ttl() == old(self).ttl(),
            done is Ok ==> {
                &&& final(self).entries() == old(self).entries().remove(token@)
                &&& final(self)@ == old(self)@.remove(token@)
            },
            done is Err ==> {
                ||| final(self).entries() == old(self).entries()
                ||| final(self).entries() == old(self).entries().remove(token@)
            },
    {
        proof {
            lemma_sessions_remove(self.entries(), token@);
        }
        revoked_from(db_remove(&mut self.db, token.as_bytes()))
    }

    /// Makes one attempt at issuing a token, from what the random source
    /// gave. Without a block of random bytes there is nothing to issue. With
    /// one, the token is the block written in hexadecimal: it is stored
    /// and returned where it is free, and `Ok(None)` says that it was
    /// taken, so that another must be drawn.
    pub fn issue_drawn(&mut self, drawn: Option<[u8; 16]>, subject: &str, now: u64) -> (issued:
        Result<Option<Token>, IssueError>)
        requires
            now + old(self).ttl() <= u64::MAX,
        ensures
            final(self).ttl() == old(self).ttl(),
            match drawn {
                None => {
                    &&& issued matches Err(IssueError::EntropyUnavailable)
                    &&& final(self).entries() == old(self).entries()
                },
                Some(block) => match issued {
                    Ok(Some(token)) => {
                        &&& token@ == hex_bytes(block@)
                        &&& !old(self).entries().contains_key(token@)
                        &&& final(self).entries() == old(self).entries().insert(
                            token@,
                            encode_session(subject@, now, (now + old(self).ttl()) as u64),
                        )
                        &&& final(self)@ == old(self)@.insert(
                            token@,
                            SessionView {
                                token: token@,
                                subject: subject@,
                                issued_at: now,
                                expires_at: (now + old(self).ttl()) as u64,
                            },
                        )
                    },
                    Ok(None) => {
                        &&& old(self).entries().contains_key(hex_bytes(block@))
                        &&& final(self).entries() == old(self).entries()
                    },
                    Err(e) => {
                        &&& e == IssueError::StoreUnavailable
                        &&& {
                            ||| final(self).entries() == old(self).entries()
                            ||| {
                                &&& !old(self).entries().contains_key(hex_bytes(block@))
                                &&& final(self).entries() == old(self).entries().insert(
                                    hex_bytes(block@),
                                    encode_session(subject@, now, (now + old(self).ttl()) as u64),
                                )
                            }
                        }
                    },
                },
            },
    {
        let block = match drawn {
            Some(block) => block,
            None => {
                return Err(IssueError::EntropyUnavailable);
            },
        };
        let token = Token::from_entropy(&block);
        match self.issue_with(&token, subject, now) {
            Ok(true) => Ok(Some(token)),
            Ok(false) => Ok(None),
            Err(_) => Err(IssueError::StoreUnavailable),
        }
    }

    /// Issues a token for the subject at the given time: draws a fresh
    /// random token, and stores under it a session that lasts from now
    /// for the store's lifetime. A token that is already taken is never
    /// handed out: another one is drawn, up to `MAX_ISSUE_ATTEMPTS` times.
    pub fn issue_at(&mut self, subject: &str, now: u64) -> (issued: Result<Token, IssueError>)
        requires
            now + old(self).ttl() <= u64::MAX,
        ensures
            final(self).ttl() == old(self).ttl(),
            issued matches Ok(token) ==> {
                &&& is_issued_form(token@)
                &&& !old(self).entries().contains_key(token@)
                &&& final(self).entries() == old(self).entries().insert(
                    token@,
                    encode_session(subject@, now, (now + old(self).ttl()) as u64),
                )
                &&& final(self)@ == old(self)@.insert(
                    token@,
                    SessionView {
                        token: token@,
                        subject: subject@,
                        issued_at: now,
                        expires_at: (now + old(self).ttl()) as u64,
                    },
                )
            },
            issued matches Err(e) ==> {
                ||| final(self).entries() == old(self).entries()
                ||| {
                    &&& e == IssueError::StoreUnavailable
                    &&& exists|token: Seq<u8>|
                        {
                            &&& is_issued_form(token)
                            &&& !old(self).entries().contains_key(token)
                            &&& final(self).entries() == #[trigger] old(self).entries().insert(
                                token,
                                encode_session(subject@, now, (now + old(self).ttl()) as u64),
                            )
                        }
                }
            },
            issued matches Err(IssueError::TooManyCollisions) ==> exists|token: Seq<u8>|
                is_issued_form(token) && #[trigger] old(self).entries().contains_key(token),
    {
        let mut attempt: u32 = 0;
        while attempt < MAX_ISSUE_ATTEMPTS
            invariant
                self.entries() == old(self).entries(),
                self.ttl() == old(self).ttl(),
                now + self.ttl() <= u64::MAX,
                attempt > 0 ==> exists|token: Seq<u8>|
                    is_issued_form(token) && #[trigger] old(self).entries().contains_key(token),
            decreases MAX_ISSUE_ATTEMPTS - attempt,
        {
            let drawn = random_block();
            let outcome = self.issue_drawn(drawn, subject, now);
            proof {
                if let Some(block) = drawn {
                    lemma_hex_is_issued_form(block@);
                    if outcome matches Ok(None) {
                        assert(old(self).entries().contains_key(hex_bytes(block@)));
                    }
                }
            }
            match after_attempt(attempt, outcome) {
                NextStep::Done(token) => {
                    return Ok(token);
                },
                NextStep::GiveUp(e) => {
                    return Err(e);
                },
                NextStep::DrawAgain => {},
            }
            attempt += 1;
        }
        Err(IssueError::TooManyCollisions)
    }

    /// Issues a token for the subject at the present time.
    pub fn issue(&mut self, subject: &str) -> (issued: Result<Token, IssueError>)
        ensures
            final(self).ttl() == old(self).ttl(),
            issued matches Ok(token) ==> {
                &&& is_issued_form(token@)
                &&& !old(self).entries().contains_key(token@)
                &&& exists|now: u64|
                    {
                        &&& now <= LATEST
                        &&& final(self).entries() == #[trigger] old(self).entries().insert(
                            token@,
                            encode_session(subject@, now, (now + old(self).ttl()) as u64),
                        )
                    }
            },
            issued matches Err(e) ==> {
                ||| final(self).entries() == old(self).entries()
                ||| {
                    &&& e == IssueError::StoreUnavailable
                    &&& exists|token: Seq<u8>, now: u64|
                        {
                            &&& is_issued_form(token)
                            &&& !old(self).entries().contains_key(token)
                            &&& now <= LATEST
                            &&& final(self).entries() == #[trigger] old(self).entries().insert(
                                token,
                                encode_session(subject@, now, (now + old(self).ttl()) as u64),
                            )
                        }
                }
            },
            issued matches Err(IssueError::TooManyCollisions) ==> exists|token: Seq<u8>|
                is_issued_form(token) && #[trigger] old(self).entries().contains_key(token),
    {
        let now = unix_now();
        self.issue_at(subject, now)
    }

    /// The tokens whose sessions have expired at the given time, each
    /// once: a snapshot, which a later call takes anew.
    pub fn list_expired(&self, now: u64) -> (listed: Result<Vec<Token>, StoreUnavailable>)
        ensures
            listed matches Ok(tokens) ==> {
                &&& forall|token: Seq<u8>|
                    token_set(tokens@).contains(token) <==> is_expired(self@, token, now)
                &&& no_token_twice(tokens@)
            },
    {
        let pairs = db_snapshot(&self.db);
        let ghost list = match &pairs {
            Ok(list) => list@,
            Err(_) => Seq::empty(),
        };
        let listed = expired_from(pairs, now);
        proof {
            if let Ok(tokens) = &listed {
                let keys = token_views(tokens@);
                lemma_expired_keys(list, now);
                assert forall|token: Seq<u8>|
                    token_set(tokens@).contains(token) <==> is_expired(self@, token, now) by {
                    if token_set(tokens@).contains(token) {
                        let j = choose|j: int|
                            0 <= j < tokens@.len() && #[trigger] tokens@[j]@ == token;
                        assert(keys[j] == token);
                        assert(keys.contains(token));
                        let p = choose|p: int|
                            0 <= p < list.len() && #[trigger] list[p].0@ == token
                                && is_expired_value(list[p].1@, now);
                        assert(self.entries()[list[p].0@] == list[p].1@);
                    }
                    if is_expired(self@, token, now) {
                        let p = choose|p: int| 0 <= p < list.len() && #[trigger] list[p].0@ == token;
                        assert(is_expired_value(list[p].1@, now));
                        assert(keys.contains(token));
                        let j = choose|j: int| 0 <= j < keys.len() && keys[j] == token;
                        assert(tokens@[j]@ == token);
                    }
                }
                assert forall|j: int, k: int| 0 <= j < k < tokens@.len() implies #[trigger] tokens@[j]@
                    != #[trigger] tokens@[k]@ by {
                    assert(keys[j] != keys[k]);
                }
            }
        }
        listed
    }

    /// The seconds that a session lasts.
    pub fn ttl_seconds(&self) -> (ttl: u32)
        ensures
            ttl == self.ttl(),
            ttl > 0,
    {
        self.ttl.seconds()
    }
}

} // verus!
