use session_gate::clock::{seconds_since_epoch, unix_now, LATEST};
use session_gate::store::{TokenStore, Validation};
use session_gate::sweeper::{sweep, ExpirySweeper, SweeperAction, SweeperEvent};
use session_gate::text::{bytes_eq, str_eq};
use session_gate::token::{hex_digit_of, Token};

fn store_with_ttl(ttl: u32) -> TokenStore {
    let db = sled::Config::new().temporary(true).open().unwrap();
    TokenStore::new(db, ttl).unwrap()
}

#[test]
fn scenario_issue_expire_sweep() {
    let mut store = store_with_ttl(1);
    let token = store.issue_at("alice", 1_000).unwrap();
    assert_eq!(
        store.validate_at(&token, 1_000),
        Ok(Validation::Valid("alice".to_string()))
    );
    assert_eq!(store.validate_at(&token, 1_002), Ok(Validation::Invalid));
    assert!(store.lookup(&token).unwrap().is_some());
    let report = sweep(&mut store, 1_002).unwrap();
    assert_eq!(report.removed, vec![token.clone()]);
    assert!(report.failed.is_empty());
    assert_eq!(store.lookup(&token), Ok(None));
    assert_eq!(store.validate_at(&token, 1_002), Ok(Validation::Invalid));
}

#[test]
fn sweep_keeps_what_has_not_expired() {
    let mut store = store_with_ttl(10);
    let old = store.issue_at("old", 100).unwrap();
    let young = store.issue_at("young", 105).unwrap();
    let report = sweep(&mut store, 110).unwrap();
    assert_eq!(report.removed, vec![old.clone()]);
    assert!(report.failed.is_empty());
    assert_eq!(store.lookup(&old), Ok(None));
    assert_eq!(
        store.validate_at(&young, 110),
        Ok(Validation::Valid("young".to_string()))
    );
}

#[test]
fn sweep_of_nothing_expired_removes_nothing() {
    let mut store = store_with_ttl(10);
    let token = store.issue_at("alice", 100).unwrap();
    let report = sweep(&mut store, 109).unwrap();
    assert!(report.removed.is_empty());
    assert!(report.failed.is_empty());
    assert!(store.lookup(&token).unwrap().is_some());
}

#[test]
fn sweep_after_revoke_does_not_fail() {
    let mut store = store_with_ttl(10);
    let token = store.issue_at("alice", 100).unwrap();
    store.revoke(&token).unwrap();
    assert_eq!(store.validate_at(&token, 100), Ok(Validation::Invalid));
    let report = sweep(&mut store, 500).unwrap();
    assert!(report.removed.is_empty());
    assert!(report.failed.is_empty());
}

#[test]
fn sweep_twice_finds_nothing_the_second_time() {
    let mut store = store_with_ttl(10);
    store.issue_at("a", 1).unwrap();
    store.issue_at("b", 2).unwrap();
    let first = sweep(&mut store, 100).unwrap();
    assert_eq!(first.removed.len(), 2);
    let second = sweep(&mut store, 100).unwrap();
    assert!(second.removed.is_empty());
    assert!(second.failed.is_empty());
}

#[test]
fn sweep_leaves_foreign_entries() {
    let db = sled::Config::new().temporary(true).open().unwrap();
    db.insert(b"foreign", b"not a session".to_vec()).unwrap();
    let mut store = TokenStore::new(db.clone(), 10).unwrap();
    store.issue_at("alice", 0).unwrap();
    let report = sweep(&mut store, u64::MAX).unwrap();
    assert_eq!(report.removed.len(), 1);
    assert_eq!(db.get(b"foreign").unwrap().unwrap().to_vec(), b"not a session".to_vec());
    assert_eq!(db.len(), 1);
}

#[test]
fn sweeper_needs_a_positive_interval() {
    assert!(ExpirySweeper::new(0).is_none());
    let sweeper = ExpirySweeper::new(30).unwrap();
    assert_eq!(sweeper.interval_seconds(), 30);
    assert!(!sweeper.is_cancelled());
}

#[test]
fn sweeper_sweeps_on_every_tick_until_cancelled() {
    let mut sweeper = ExpirySweeper::new(30).unwrap();
    assert_eq!(sweeper.on_event(SweeperEvent::TimerFired), SweeperAction::Sweep);
    assert_eq!(sweeper.on_event(SweeperEvent::TimerFired), SweeperAction::Sweep);
    assert_eq!(sweeper.on_event(SweeperEvent::CancelRequested), SweeperAction::Exit);
    assert!(sweeper.is_cancelled());
    assert_eq!(sweeper.on_event(SweeperEvent::TimerFired), SweeperAction::Exit);
    assert_eq!(sweeper.on_event(SweeperEvent::CancelRequested), SweeperAction::Exit);
    assert_eq!(sweeper.interval_seconds(), 30);
}

#[test]
fn cancelled_sweeper_skips_the_tick() {
    let mut store = store_with_ttl(1);
    let token = store.issue_at("alice", 0).unwrap();
    let mut sweeper = ExpirySweeper::new(5).unwrap();
    assert!(sweeper
        .run_at(SweeperEvent::CancelRequested, &mut store, 100)
        .is_none());
    assert!(sweeper.run_at(SweeperEvent::TimerFired, &mut store, 100).is_none());
    assert!(store.lookup(&token).unwrap().is_some());
}

#[test]
fn running_sweeper_sweeps_on_a_tick() {
    let mut store = store_with_ttl(1);
    let token = store.issue_at("alice", 0).unwrap();
    let mut sweeper = ExpirySweeper::new(5).unwrap();
    let report = sweeper
        .run_at(SweeperEvent::TimerFired, &mut store, 100)
        .unwrap()
        .unwrap();
    assert_eq!(report.removed, vec![token.clone()]);
    assert_eq!(store.lookup(&token), Ok(None));
}

#[test]
fn sweeper_run_reads_the_clock() {
    let mut store = store_with_ttl(1);
    let past = store.issue_at("past", 0).unwrap();
    let present = store.issue("present").unwrap();
    let mut sweeper = ExpirySweeper::new(5).unwrap();
    let report = sweeper.run(SweeperEvent::TimerFired, &mut store).unwrap().unwrap();
    assert!(report.removed.contains(&past));
    assert!(report.failed.is_empty());
    assert_eq!(store.lookup(&past), Ok(None));
    let _ = present;
}

#[test]
fn clock_counts_seconds_since_the_epoch() {
    assert_eq!(seconds_since_epoch(None), 0);
    assert_eq!(seconds_since_epoch(Some(0)), 0);
    assert_eq!(seconds_since_epoch(Some(1_431_648_000)), 1_431_648_000);
    assert_eq!(seconds_since_epoch(Some(LATEST - 1)), LATEST - 1);
    assert_eq!(seconds_since_epoch(Some(LATEST)), LATEST);
    assert_eq!(seconds_since_epoch(Some(LATEST + 1)), LATEST);
    assert_eq!(seconds_since_epoch(Some(u64::MAX)), LATEST);
    assert_eq!(LATEST, i64::MAX as u64);
}

#[test]
fn clock_reads_the_present() {
    let before = std::time::SystemTime::now()
        .duration_since(std::time::UNIX_EPOCH)
        .unwrap()
        .as_secs();
    let now = unix_now();
    let after = std::time::SystemTime::now()
        .duration_since(std::time::UNIX_EPOCH)
        .unwrap()
        .as_secs();
    assert!(before <= now && now <= after);
    assert!(now > 1_600_000_000);
}

#[test]
fn token_from_entropy_is_written_in_hex() {
    let entropy = [
        0x00, 0x01, 0x0f, 0x10, 0x7f, 0x80, 0xab, 0xcd, 0xef, 0xff, 0x12, 0x34, 0x56, 0x78, 0x9a,
        0xbc,
    ];
    let token = Token::from_entropy(&entropy);
    assert_eq!(token.as_bytes(), b"00010f107f80abcdefff123456789abc");
    assert_eq!(token.to_text().unwrap(), "00010f107f80abcdefff123456789abc");
}

#[test]
fn hex_digits_are_lower_case() {
    let digits: Vec<u8> = (0..16).map(hex_digit_of).collect();
    assert_eq!(digits, b"0123456789abcdef".to_vec());
}

#[test]
fn token_text_and_bytes_agree() {
    let token = Token::from_text("héllo");
    assert_eq!(token.as_bytes(), "héllo".as_bytes());
    assert_eq!(token.to_text(), Some("héllo".to_string()));
    assert_eq!(Token::from_bytes(vec![0xff, 0xfe]).to_text(), None);
    assert_eq!(Token::from_bytes(vec![]).to_text(), Some(String::new()));
}

#[test]
fn token_equality_is_by_bytes() {
    let a = Token::from_text("abc");
    let b = Token::from_bytes(b"abc".to_vec());
    let c = Token::from_text("abd");
    assert!(a.same_as(&b));
    assert!(!a.same_as(&c));
    assert!(!a.same_as(&Token::from_text("ab")));
    assert_eq!(a.clone(), a);
    assert!(a.clone().same_as(&a));
}

#[test]
fn text_comparison_is_exact() {
    assert!(str_eq("GET", "GET"));
    assert!(!str_eq("GET", "get"));
    assert!(!str_eq("GET", "GET "));
    assert!(str_eq("", ""));
    assert!(bytes_eq(b"", b""));
    assert!(bytes_eq(&[1, 2, 3], &[1, 2, 3]));
    assert!(!bytes_eq(&[1, 2, 3], &[1, 2, 4]));
    assert!(!bytes_eq(&[1, 2, 3], &[1, 2]));
}
