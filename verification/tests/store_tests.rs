use session_gate::error::IssueError;
use session_gate::record::{decode_fields, encode_fields, SessionRecord};
use session_gate::store::{judge, TokenStore, Validation, MAX_ISSUE_ATTEMPTS};
use session_gate::token::Token;

fn fresh_db() -> sled::Db {
    sled::Config::new().temporary(true).open().unwrap()
}

fn fresh_store(ttl: u32) -> TokenStore {
    TokenStore::new(fresh_db(), ttl).unwrap()
}

#[test]
fn store_needs_a_positive_lifetime() {
    assert!(TokenStore::new(fresh_db(), 0).is_none());
    let store = TokenStore::new(fresh_db(), 60).unwrap();
    assert_eq!(store.ttl_seconds(), 60);
}

#[test]
fn issued_token_validates_at_once() {
    let mut store = fresh_store(60);
    let token = store.issue_at("alice", 1_000).unwrap();
    assert_eq!(
        store.validate_at(&token, 1_000),
        Ok(Validation::Valid("alice".to_string()))
    );
}

#[test]
fn issued_token_validates_for_every_subject_tried() {
    let mut store = fresh_store(5);
    for subject in ["", "bob", "üñí-çødé", "a b c", "admin"] {
        let token = store.issue_at(subject, 7).unwrap();
        assert_eq!(
            store.validate_at(&token, 7),
            Ok(Validation::Valid(subject.to_string()))
        );
    }
}

#[test]
fn token_is_invalid_from_its_expiry_on() {
    let mut store = fresh_store(10);
    let token = store.issue_at("alice", 100).unwrap();
    assert_eq!(
        store.validate_at(&token, 109),
        Ok(Validation::Valid("alice".to_string()))
    );
    assert_eq!(store.validate_at(&token, 110), Ok(Validation::Invalid));
    assert_eq!(store.validate_at(&token, 111), Ok(Validation::Invalid));
    assert_eq!(store.validate_at(&token, u64::MAX), Ok(Validation::Invalid));
    let record = store.lookup(&token).unwrap().unwrap();
    assert_eq!(record.expires_at, 110);
}

#[test]
fn validation_does_not_extend_the_session() {
    let mut store = fresh_store(10);
    let token = store.issue_at("alice", 100).unwrap();
    for now in 100..110 {
        assert_eq!(
            store.validate_at(&token, now),
            Ok(Validation::Valid("alice".to_string()))
        );
    }
    let record = store.lookup(&token).unwrap().unwrap();
    assert_eq!(record.issued_at, 100);
    assert_eq!(record.expires_at, 110);
    assert_eq!(store.validate_at(&token, 110), Ok(Validation::Invalid));
}

#[test]
fn unknown_token_is_invalid() {
    let store = fresh_store(10);
    let token = Token::from_text("no-such-token");
    assert_eq!(store.validate_at(&token, 0), Ok(Validation::Invalid));
    assert_eq!(store.lookup(&token), Ok(None));
}

#[test]
fn revoked_token_is_invalid() {
    let mut store = fresh_store(60);
    let token = store.issue_at("alice", 10).unwrap();
    assert_eq!(store.revoke(&token), Ok(()));
    assert_eq!(store.validate_at(&token, 10), Ok(Validation::Invalid));
    assert_eq!(store.lookup(&token), Ok(None));
}

#[test]
fn revoke_is_idempotent() {
    let mut store = fresh_store(60);
    let token = store.issue_at("alice", 10).unwrap();
    assert_eq!(store.revoke(&token), Ok(()));
    assert_eq!(store.revoke(&token), Ok(()));
    assert_eq!(store.revoke(&Token::from_text("never-issued")), Ok(()));
}

#[test]
fn revoke_leaves_other_tokens_alone() {
    let mut store = fresh_store(60);
    let alice = store.issue_at("alice", 10).unwrap();
    let bob = store.issue_at("bob", 10).unwrap();
    assert_eq!(store.revoke(&alice), Ok(()));
    assert_eq!(
        store.validate_at(&bob, 10),
        Ok(Validation::Valid("bob".to_string()))
    );
}

#[test]
fn issue_with_refuses_a_taken_token() {
    let mut store = fresh_store(60);
    let token = Token::from_text("fixed");
    assert_eq!(store.issue_with(&token, "alice", 10), Ok(true));
    assert_eq!(store.issue_with(&token, "mallory", 20), Ok(false));
    assert_eq!(
        store.validate_at(&token, 20),
        Ok(Validation::Valid("alice".to_string()))
    );
    let record = store.lookup(&token).unwrap().unwrap();
    assert_eq!(record.subject, "alice");
    assert_eq!(record.issued_at, 10);
    assert_eq!(record.expires_at, 70);
}

#[test]
fn issued_tokens_have_the_issued_form() {
    let mut store = fresh_store(60);
    let token = store.issue_at("alice", 10).unwrap();
    let text = token.to_text().unwrap();
    assert_eq!(text.len(), 32);
    assert!(text.bytes().all(|b| b.is_ascii_digit() || (b'a'..=b'f').contains(&b)));
    assert_eq!(Token::from_text(&text), token);
}

#[test]
fn ten_thousand_issued_tokens_are_distinct() {
    let mut store = fresh_store(60);
    let mut seen = std::collections::HashSet::new();
    for _ in 0..10_000 {
        let token = store.issue_at("alice", 10).unwrap();
        assert!(seen.insert(token));
    }
    assert_eq!(seen.len(), 10_000);
}

#[test]
fn issue_reads_the_clock() {
    let mut store = fresh_store(3_600);
    let token = store.issue("alice").unwrap();
    assert_eq!(
        store.validate(&token),
        Ok(Validation::Valid("alice".to_string()))
    );
    let record = store.lookup(&token).unwrap().unwrap();
    assert_eq!(record.expires_at, record.issued_at + 3_600);
    assert!(record.issued_at > 1_600_000_000);
}

#[test]
fn list_expired_names_exactly_the_expired() {
    let mut store = fresh_store(10);
    let early = store.issue_at("early", 100).unwrap();
    let late = store.issue_at("late", 200).unwrap();
    assert_eq!(store.list_expired(109), Ok(vec![]));
    assert_eq!(store.list_expired(110), Ok(vec![early.clone()]));
    assert_eq!(store.list_expired(209), Ok(vec![early.clone()]));
    let mut all = store.list_expired(210).unwrap();
    all.sort_by(|a, b| a.as_bytes().cmp(b.as_bytes()));
    let mut expected = vec![early, late];
    expected.sort_by(|a, b| a.as_bytes().cmp(b.as_bytes()));
    assert_eq!(all, expected);
}

#[test]
fn list_expired_is_a_snapshot() {
    let mut store = fresh_store(10);
    let token = store.issue_at("alice", 100).unwrap();
    let first = store.list_expired(500).unwrap();
    let second = store.list_expired(500).unwrap();
    assert_eq!(first, second);
    assert_eq!(first, vec![token.clone()]);
    assert!(store.lookup(&token).unwrap().is_some());
}

#[test]
fn foreign_entries_are_no_sessions() {
    let db = fresh_db();
    db.insert(b"short", b"xy".to_vec()).unwrap();
    let mut backwards = 9u64.to_le_bytes().to_vec();
    backwards.extend_from_slice(&3u64.to_le_bytes());
    backwards.extend_from_slice(b"alice");
    db.insert(b"backwards", backwards).unwrap();
    let mut not_text = 1u64.to_le_bytes().to_vec();
    not_text.extend_from_slice(&2u64.to_le_bytes());
    not_text.extend_from_slice(&[0xff, 0xfe]);
    db.insert(b"not-text", not_text).unwrap();
    let store = TokenStore::new(db, 10).unwrap();
    for key in ["short", "backwards", "not-text"] {
        let token = Token::from_text(key);
        assert_eq!(store.validate_at(&token, 0), Ok(Validation::Invalid));
        assert_eq!(store.lookup(&token), Ok(None));
    }
    assert_eq!(store.list_expired(u64::MAX), Ok(vec![]));
}

#[test]
fn stored_value_has_the_documented_layout() {
    let value = encode_fields("alice", 1, 258);
    let mut expected = vec![1u8, 0, 0, 0, 0, 0, 0, 0, 2, 1, 0, 0, 0, 0, 0, 0];
    expected.extend_from_slice(b"alice");
    assert_eq!(value, expected);
    assert_eq!(
        decode_fields(&value),
        Some(("alice".to_string(), 1, 258))
    );
}

#[test]
fn stored_value_round_trips() {
    let record = SessionRecord {
        token: Token::from_text("t"),
        subject: "zoë".to_string(),
        issued_at: 5,
        expires_at: u64::MAX,
    };
    let value = record.encode();
    assert_eq!(SessionRecord::decode(Token::from_text("t"), &value), Some(record));
}

#[test]
fn decode_rejects_what_is_no_session() {
    assert_eq!(decode_fields(&[]), None);
    assert_eq!(decode_fields(&[0u8; 15]), None);
    assert_eq!(decode_fields(&[0u8; 16]), None);
    assert_eq!(decode_fields(&encode_fields("x", 5, 5)), None);
    assert_eq!(decode_fields(&encode_fields("x", 6, 5)), None);
    assert_eq!(decode_fields(&encode_fields("", 0, 1)), Some((String::new(), 0, 1)));
}

#[test]
fn judge_goes_by_the_stored_expiry() {
    assert_eq!(judge(None, 0), Validation::Invalid);
    assert_eq!(judge(Some(vec![1, 2, 3]), 0), Validation::Invalid);
    let value = encode_fields("alice", 10, 20);
    assert_eq!(judge(Some(value.clone()), 19), Validation::Valid("alice".to_string()));
    assert_eq!(judge(Some(value.clone()), 20), Validation::Invalid);
    assert_eq!(judge(Some(value), 0), Validation::Valid("alice".to_string()));
}

#[test]
fn issue_limits_are_as_documented() {
    assert_eq!(MAX_ISSUE_ATTEMPTS, 8);
    assert_ne!(IssueError::StoreUnavailable, IssueError::TooManyCollisions);
    assert_ne!(IssueError::EntropyUnavailable, IssueError::TooManyCollisions);
}
