//! Session records and their stored form.
//!
//! A session is stored under its token. The value holds, in this order,
//! the time of issue and the time of expiry, each as eight bytes with the
//! low byte first, and then the subject in UTF-8. Times are seconds since
//! the Unix epoch.

use vstd::prelude::*;
use vstd::bytes::*;
use vstd::slice::{slice_subrange, slice_to_vec};
use vstd::utf8::*;
use crate::text::text_of;
use crate::token::Token;

verus! {

/// Length of the two times at the head of a stored value.
pub const HEADER_LEN: usize = 16;

/// What a session record says.
pub struct SessionView {
    pub token: Seq<u8>,
    pub subject: Seq<char>,
    pub issued_at: u64,
    pub expires_at: u64,
}

/// A session: a token, the subject it was issued for, and the times
/// between which it holds.
#[derive(Debug, PartialEq, Eq)]
pub struct SessionRecord {
    pub token: Token,
    pub subject: String,
    pub issued_at: u64,
    pub expires_at: u64,
}

impl View for SessionRecord {
    type V = SessionView;

    open spec fn view(&self) -> SessionView {
        SessionView {
            token: self.token@,
            subject: self.subject@,
            issued_at: self.issued_at,
            expires_at: self.expires_at,
        }
    }
}

/// The stored value of a session.
pub open spec fn encode_session(subject: Seq<char>, issued_at: u64, expires_at: u64) -> Seq<u8> {
    spec_u64_to_le_bytes(issued_at) + spec_u64_to_le_bytes(expires_at) + encode_utf8(subject)
}

/// The time of issue that a stored value holds.
pub open spec fn stored_issued_at(value: Seq<u8>) -> u64
    recommends
        value.len() >= 16,
{
    spec_u64_from_le_bytes(value.subrange(0, 8))
}

/// The time of expiry that a stored value holds.
pub open spec fn stored_expires_at(value: Seq<u8>) -> u64
    recommends
        value.len() >= 16,
{
    spec_u64_from_le_bytes(value.subrange(8, 16))
}

/// The bytes of the subject in a stored value.
pub open spec fn stored_subject_bytes(value: Seq<u8>) -> Seq<u8>
    recommends
        value.len() >= 16,
{
    value.subrange(16, value.len() as int)
}

/// Whether a stored value is that of a session: long enough for the two
/// times, expiring after it was issued, with a subject in UTF-8.
pub open spec fn is_session_value(value: Seq<u8>) -> bool {
    &&& value.len() >= 16
    &&& stored_issued_at(value) < stored_expires_at(value)
    &&& valid_utf8(stored_subject_bytes(value))
}

/// The session that an entry of the store holds, if it holds one.
pub open spec fn decode_session(token: Seq<u8>, value: Seq<u8>) -> Option<SessionView> {
    if is_session_value(value) {
        Some(
            SessionView {
                token,
                subject: decode_utf8(stored_subject_bytes(value)),
                issued_at: stored_issued_at(value),
                expires_at: stored_expires_at(value),
            },
        )
    } else {
        None
    }
}

/// A session that expires after it was issued is read back from its
/// stored value as it was written.
pub proof fn lemma_decode_encode(token: Seq<u8>, subject: Seq<char>, issued_at: u64, expires_at: u64)
    requires
        issued_at < expires_at,
    ensures
        decode_session(token, encode_session(subject, issued_at, expires_at)) == Some(
            SessionView { token, subject, issued_at, expires_at },
        ),
{
    let value = encode_session(subject, issued_at, expires_at);
    lemma_auto_spec_u64_to_from_le_bytes();
    assert(spec_u64_to_le_bytes(issued_at).len() == 8);
    assert(spec_u64_to_le_bytes(expires_at).len() == 8);
    assert(value.subrange(0, 8) =~= spec_u64_to_le_bytes(issued_at));
    assert(value.subrange(8, 16) =~= spec_u64_to_le_bytes(expires_at));
    assert(stored_subject_bytes(value) =~= encode_utf8(subject));
    encode_utf8_valid_utf8(subject);
    encode_utf8_decode_utf8(subject);
}

/// A stored value that holds a session is the stored value of that
/// session: no two values hold the same one.
pub proof fn lemma_encode_decode(token: Seq<u8>, value: Seq<u8>)
    requires
        is_session_value(value),
    ensures
        encode_session(
            decode_session(token, value).unwrap().subject,
            decode_session(token, value).unwrap().issued_at,
            decode_session(token, value).unwrap().expires_at,
        ) == value,
{
    lemma_auto_spec_u64_to_from_le_bytes();
    let head = value.subrange(0, 8);
    let mid = value.subrange(8, 16);
    let tail = stored_subject_bytes(value);
    assert(spec_u64_to_le_bytes(spec_u64_from_le_bytes(head)) == head);
    assert(spec_u64_to_le_bytes(spec_u64_from_le_bytes(mid)) == mid);
    decode_utf8_encode_utf8(tail);
    assert(head + mid + tail =~= value);
}

/// Writes the stored value of a session.
pub fn encode_fields(subject: &str, issued_at: u64, expires_at: u64) -> (value: Vec<u8>)
    ensures
        value@ == encode_session(subject@, issued_at, expires_at),
{
    let mut value = u64_to_le_bytes(issued_at);
    let mut expiry = u64_to_le_bytes(expires_at);
    value.append(&mut expiry);
    value.extend_from_slice(subject.as_bytes());
    value
}

/// Reads a stored value: the subject, the time of issue and the time of
/// expiry, or `None` where the value holds no session.
pub fn decode_fields(value: &[u8]) -> (fields: Option<(String, u64, u64)>)
    ensures
        fields is Some <==> is_session_value(value@),
        fields matches Some((subject, issued_at, expires_at)) ==> {
            &&& subject@ == decode_utf8(stored_subject_bytes(value@))
            &&& issued_at == stored_issued_at(value@)
            &&& expires_at == stored_expires_at(value@)
        },
{
    if value.len() < HEADER_LEN {
        return None;
    }
    let issued_at = u64_from_le_bytes(slice_subrange(value, 0, 8));
    let expires_at = u64_from_le_bytes(slice_subrange(value, 8, HEADER_LEN));
    if issued_at >= expires_at {
        return None;
    }
    let tail = slice_to_vec(slice_subrange(value, HEADER_LEN, value.len()));
    match text_of(tail) {
        Some(subject) => {
            proof {
                encode_utf8_decode_utf8(subject@);
            }
            Some((subject, issued_at, expires_at))
        },
        None => None,
    }
}

impl SessionRecord {
    /// Whether the record expires after it was issued.
    pub open spec fn wf(&self) -> bool {
        self.issued_at < self.expires_at
    }

    /// The value under which the record is stored.
    pub fn encode(&self) -> (value: Vec<u8>)
        ensures
            value@ == encode_session(self.subject@, self.issued_at, self.expires_at),
    {
        encode_fields(self.subject.as_str(), self.issued_at, self.expires_at)
    }

    /// Reads a stored value back as the record of the given token, or
    /// `None` where the value holds no session.
    pub fn decode(token: Token, value: &[u8]) -> (record: Option<Self>)
        ensures
            match record {
                Some(r) => decode_session(token@, value@) == Some(r@) && r.wf(),
                None => decode_session(token@, value@) is None,
            },
    {
        match decode_fields(value) {
            Some((subject, issued_at, expires_at)) => Some(
                SessionRecord { token, subject, issued_at, expires_at },
            ),
            None => None,
        }
    }

    /// Whether the record has expired at the given time: a session holds
    /// strictly before its time of expiry.
    pub fn is_expired_at(&self, now: u64) -> (expired: bool)
        ensures
            expired == (now >= self.expires_at),
    {
        now >= self.expires_at
    }
}

} // verus!
