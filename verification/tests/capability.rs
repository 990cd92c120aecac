use realm::{CapCheck, ErrorCode, RealmAuthServer, RealmChatServer};
use sha3::digest::Update;
use sha3::{Digest, Sha3_256};

fn logged_in() -> (RealmAuthServer, String) {
    let mut auth = RealmAuthServer::new("auth.example".to_string());
    let code = auth
        .create_account_flow("@alice:auth.example".to_string(), "alice@x.test".to_string())
        .unwrap();
    let token = auth.finish_login_flow("@alice:auth.example", code).unwrap();
    (auth, token)
}

#[test]
fn stoken_matches_the_reference_construction() {
    // The derivation must equal hex(SHA3-256(bearer || server_id || domain
    // || port)) computed directly.
    let st = realm::stoken("tok", "realm-1", "chat.example", 5051);
    let digest = Sha3_256::new()
        .chain(format!("{}{}{}{}", "tok", "realm-1", "chat.example", 5051))
        .finalize();
    assert_eq!(st, hex::encode(digest));
    assert_eq!(st.len(), 64);
}

#[test]
fn stoken_depends_on_every_argument() {
    let st = realm::stoken("tok", "realm-1", "chat.example", 5051);
    assert_ne!(st, realm::stoken("tok2", "realm-1", "chat.example", 5051));
    assert_ne!(st, realm::stoken("tok", "realm-2", "chat.example", 5051));
    assert_ne!(st, realm::stoken("tok", "realm-1", "chat2.example", 5051));
    assert_ne!(st, realm::stoken("tok", "realm-1", "chat.example", 5052));
}

#[test]
fn server_token_validation_accepts_only_the_exact_target() {
    let (auth, token) = logged_in();
    let st = realm::stoken(&token, "realm-1", "chat.example", 5051);

    assert!(auth.server_token_validation(&st, "@alice:auth.example", "realm-1", "chat.example", 5051));
    assert!(!auth.server_token_validation(&st, "@alice:auth.example", "realm-2", "chat.example", 5051));
    assert!(!auth.server_token_validation(&st, "@alice:auth.example", "realm-1", "other.example", 5051));
    assert!(!auth.server_token_validation(&st, "@alice:auth.example", "realm-1", "chat.example", 5052));
    assert!(!auth.server_token_validation(&st, "@bob:auth.example", "realm-1", "chat.example", 5051));
    let other = realm::stoken("unrelated", "realm-1", "chat.example", 5051);
    assert!(!auth.server_token_validation(&other, "@alice:auth.example", "realm-1", "chat.example", 5051));
}

#[test]
fn validation_stops_after_sign_out() {
    let (mut auth, token) = logged_in();
    let st = realm::stoken(&token, "realm-1", "chat.example", 5051);
    assert!(auth.server_token_validation(&st, "@alice:auth.example", "realm-1", "chat.example", 5051));
    auth.sign_out("@alice:auth.example", &token).unwrap();
    assert!(!auth.server_token_validation(&st, "@alice:auth.example", "realm-1", "chat.example", 5051));
}

#[test]
fn capability_cache_protocol() {
    let mut chat = RealmChatServer::new("realm-1".to_string(), "chat.example".to_string(), 5051);
    let now: u64 = 1000;

    // Nothing cached: the caller must ask the home Auth Service.
    assert!(matches!(chat.check_capability("st-1", "@alice:auth.example", now), CapCheck::Unknown));

    // A negative answer is not cached.
    chat.record_validation("st-1", "@alice:auth.example", false, now);
    assert!(matches!(chat.check_capability("st-1", "@alice:auth.example", now), CapCheck::Unknown));

    // A positive answer is, and answers later checks.
    chat.record_validation("st-1", "@alice:auth.example", true, now);
    assert!(matches!(chat.check_capability("st-1", "@alice:auth.example", now + 10), CapCheck::Valid));

    // A cached hit for another userid is refused outright.
    assert!(matches!(
        chat.check_capability("st-1", "@mallory:auth.example", now + 10),
        CapCheck::Mismatch
    ));
}

#[test]
fn capability_cache_expires() {
    let mut chat = RealmChatServer::new("realm-1".to_string(), "chat.example".to_string(), 5051);
    let now: u64 = 1000;
    chat.record_validation("st-1", "@alice:auth.example", true, now);

    // Idle expiry: five minutes without a consultation.
    assert!(matches!(
        chat.check_capability("st-1", "@alice:auth.example", now + 300),
        CapCheck::Unknown
    ));

    // Kept alive by consultations, but the absolute hour still ends it.
    chat.record_validation("st-2", "@alice:auth.example", true, now);
    let mut t = now;
    while t + 250 < now + 3600 {
        t += 250;
        assert!(matches!(chat.check_capability("st-2", "@alice:auth.example", t), CapCheck::Valid));
    }
    assert!(matches!(
        chat.check_capability("st-2", "@alice:auth.example", now + 3600),
        CapCheck::Unknown
    ));
}
