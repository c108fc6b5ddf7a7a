use session_gate::error::AuthError;
use session_gate::gate::{access_entry, bearer_token, conclude, Access, RequireAuth};
use session_gate::error::StoreUnavailable;
use session_gate::store::{TokenStore, Validation};
use session_gate::token::Token;
use session_gate::whitelist::WhitelistRegistry;

fn public_routes() -> WhitelistRegistry {
    WhitelistRegistry::new(vec![
        ("GET".to_string(), "/api/articles".to_string()),
        ("POST".to_string(), "/api/login".to_string()),
    ])
}

fn empty_store(ttl: u32) -> TokenStore {
    let db = sled::Config::new().temporary(true).open().unwrap();
    TokenStore::new(db, ttl).unwrap()
}

#[test]
fn whitelist_tests_membership_exactly() {
    let routes = public_routes();
    assert!(routes.contains("GET", "/api/articles"));
    assert!(routes.contains("POST", "/api/login"));
    assert!(!routes.contains("POST", "/api/articles"));
    assert!(!routes.contains("GET", "/api/login"));
    assert!(!routes.contains("get", "/api/articles"));
    assert!(!routes.contains("GET", "/api/articles/"));
    assert!(!routes.contains("GET", "/api/logs"));
    assert!(!routes.contains("", ""));
}

#[test]
fn empty_whitelist_holds_nothing() {
    let routes = WhitelistRegistry::new(vec![]);
    assert!(!routes.contains("GET", "/api/articles"));
    assert!(!routes.contains("", ""));
}

#[test]
fn whitelist_counts_a_repeated_route_once() {
    let routes = WhitelistRegistry::new(vec![
        ("GET".to_string(), "/a".to_string()),
        ("GET".to_string(), "/a".to_string()),
    ]);
    assert!(routes.contains("GET", "/a"));
    assert!(!routes.contains("GET", "/b"));
}

#[test]
fn whitelisted_request_passes_without_a_token() {
    let gate = RequireAuth::new(public_routes());
    let store = empty_store(60);
    assert_eq!(
        gate.authorize_at(&store, "GET", "/api/articles", None, 0),
        Ok(Access::Public)
    );
}

#[test]
fn whitelisted_request_passes_whatever_it_carries() {
    let gate = RequireAuth::new(public_routes());
    let store = empty_store(60);
    for header in ["", "garbage", "Bearer nonsense", " x", "Bearer "] {
        assert_eq!(
            gate.authorize_at(&store, "POST", "/api/login", Some(header), 0),
            Ok(Access::Public)
        );
    }
}

#[test]
fn request_without_a_header_is_rejected() {
    let gate = RequireAuth::new(public_routes());
    let store = empty_store(60);
    let outcome = gate.authorize_at(&store, "GET", "/api/logs", None, 0);
    assert_eq!(outcome, Err(AuthError::InvalidToken));
    assert_eq!(outcome.unwrap_err().status(), 401);
}

#[test]
fn request_with_a_malformed_header_is_rejected() {
    let gate = RequireAuth::new(public_routes());
    let mut store = empty_store(60);
    let token = store.issue_at("alice", 0).unwrap().to_text().unwrap();
    let no_space = format!("Bearer{token}");
    let no_scheme = format!(" {token}");
    for header in ["", "Bearer", token.as_str(), no_space.as_str(), no_scheme.as_str()] {
        assert_eq!(
            gate.authorize_at(&store, "GET", "/api/logs", Some(header), 0),
            Err(AuthError::InvalidToken)
        );
    }
}

#[test]
fn request_with_a_valid_token_passes_with_its_subject() {
    let gate = RequireAuth::new(public_routes());
    let mut store = empty_store(60);
    let token = store.issue_at("alice", 100).unwrap().to_text().unwrap();
    let header = format!("Bearer {token}");
    assert_eq!(
        gate.authorize_at(&store, "GET", "/api/logs", Some(&header), 159),
        Ok(Access::Authenticated("alice".to_string()))
    );
}

#[test]
fn request_with_an_expired_token_is_rejected() {
    let gate = RequireAuth::new(public_routes());
    let mut store = empty_store(60);
    let token = store.issue_at("alice", 100).unwrap().to_text().unwrap();
    let header = format!("Bearer {token}");
    assert_eq!(
        gate.authorize_at(&store, "GET", "/api/logs", Some(&header), 160),
        Err(AuthError::InvalidToken)
    );
}

#[test]
fn request_with_an_unknown_or_revoked_token_is_rejected() {
    let gate = RequireAuth::new(public_routes());
    let mut store = empty_store(60);
    assert_eq!(
        gate.authorize_at(&store, "GET", "/api/logs", Some("Bearer 123123"), 0),
        Err(AuthError::InvalidToken)
    );
    let token = store.issue_at("alice", 0).unwrap();
    let header = format!("Bearer {}", token.to_text().unwrap());
    store.revoke(&token).unwrap();
    assert_eq!(
        gate.authorize_at(&store, "GET", "/api/logs", Some(&header), 0),
        Err(AuthError::InvalidToken)
    );
}

#[test]
fn any_scheme_is_accepted() {
    let gate = RequireAuth::new(public_routes());
    let mut store = empty_store(60);
    let token = store.issue_at("alice", 0).unwrap().to_text().unwrap();
    let header = format!("Token {token}");
    assert_eq!(
        gate.authorize_at(&store, "DELETE", "/api/articles/1", Some(&header), 0),
        Ok(Access::Authenticated("alice".to_string()))
    );
}

#[test]
fn scenario_public_listing_and_protected_logs() {
    let gate = RequireAuth::new(public_routes());
    let store = empty_store(60);
    assert_eq!(gate.authorize(&store, "GET", "/api/articles", None), Ok(Access::Public));
    let rejected = gate.authorize(&store, "GET", "/api/logs", None);
    assert_eq!(rejected, Err(AuthError::InvalidToken));
    assert_eq!(rejected.unwrap_err().status(), 401);
}

#[test]
fn gate_reports_its_public_routes() {
    let gate = RequireAuth::new(public_routes());
    assert!(gate.is_public("GET", "/api/articles"));
    assert!(!gate.is_public("GET", "/api/logs"));
}

#[test]
fn bearer_token_is_what_follows_the_first_space() {
    assert_eq!(bearer_token("Bearer abc"), Some(Token::from_text("abc")));
    assert_eq!(bearer_token("Bearer abc def"), Some(Token::from_text("abc def")));
    assert_eq!(bearer_token("Bearer  abc"), Some(Token::from_text(" abc")));
    assert_eq!(bearer_token("Bearer "), Some(Token::from_text("")));
    assert_eq!(bearer_token("x y"), Some(Token::from_text("y")));
    assert_eq!(bearer_token("Bearer"), None);
    assert_eq!(bearer_token(""), None);
    assert_eq!(bearer_token(" abc"), None);
    assert_eq!(bearer_token(" "), None);
    assert_eq!(bearer_token("Bearer\tabc"), None);
    assert_eq!(bearer_token("Ünï çødé"), Some(Token::from_text("çødé")));
}

#[test]
fn conclude_keeps_outage_and_refusal_apart() {
    assert_eq!(
        conclude(Ok(Validation::Valid("alice".to_string()))),
        Ok(Access::Authenticated("alice".to_string()))
    );
    assert_eq!(conclude(Ok(Validation::Invalid)), Err(AuthError::InvalidToken));
    assert_eq!(conclude(Err(StoreUnavailable)), Err(AuthError::StoreUnavailable));
}

#[test]
fn statuses_are_as_documented() {
    assert_eq!(AuthError::InvalidToken.status(), 401);
    assert_eq!(AuthError::StoreUnavailable.status(), 500);
}

#[test]
fn access_entry_joins_with_spaces() {
    assert_eq!(access_entry("10.0.0.7", "GET", "/api/logs"), "10.0.0.7 GET /api/logs");
    assert_eq!(access_entry("", "", ""), "  ");
}
