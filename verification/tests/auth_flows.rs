use realm::{ErrorCode, RealmAuthServer};

fn fresh_auth() -> RealmAuthServer {
    RealmAuthServer::new("auth.example".to_string())
}

#[test]
fn signup_then_login_mints_a_bearer() {
    let mut auth = fresh_auth();
    let code = auth
        .create_account_flow("@alice:auth.example".to_string(), "alice@x.test".to_string())
        .unwrap();
    assert!((100000..=999999).contains(&code));

    let token = auth.finish_login_flow("@alice:auth.example", code).unwrap();
    assert_eq!(token.len(), 64);
    assert!(token.chars().all(|c| c.is_ascii_hexdigit() && !c.is_ascii_uppercase()));

    // Codes are single use: the same code is refused a second time.
    let again = auth.finish_login_flow("@alice:auth.example", code);
    assert_eq!(again.unwrap_err(), ErrorCode::InvalidLoginCode);
}

#[test]
fn username_format_gate() {
    let mut auth = fresh_auth();
    for bad in [
        "alice:auth.example",    // no leading '@'
        "@alice",                // no domain
        "@:auth.example",        // empty local part
        "@al ice:auth.example",  // space in local part
        "@alice:other.example",  // wrong domain
        "@al_ce:auth.example",   // underscore is not alphanumeric
        "",
    ] {
        let r = auth.create_account_flow(bad.to_string(), "a@x.test".to_string());
        assert_eq!(r.unwrap_err(), ErrorCode::InvalidUsername, "accepted {bad:?}");
    }
    auth.create_account_flow("@Alice9:auth.example".to_string(), "a@x.test".to_string())
        .unwrap();
}

#[test]
fn duplicate_username_and_email_are_refused() {
    let mut auth = fresh_auth();
    auth.create_account_flow("@alice:auth.example".to_string(), "alice@x.test".to_string())
        .unwrap();

    let taken = auth.create_account_flow("@alice:auth.example".to_string(), "other@x.test".to_string());
    assert_eq!(taken.unwrap_err(), ErrorCode::UsernameTaken);

    let email_taken =
        auth.create_account_flow("@bob:auth.example".to_string(), "alice@x.test".to_string());
    assert_eq!(email_taken.unwrap_err(), ErrorCode::EmailTaken);
}

#[test]
fn login_flow_resolves_either_selector() {
    let mut auth = fresh_auth();
    auth.create_account_flow("@alice:auth.example".to_string(), "alice@x.test".to_string())
        .unwrap();

    let by_name = auth
        .create_login_flow(Some("@alice:auth.example".to_string()), None)
        .unwrap();
    assert_eq!(by_name.username, "@alice:auth.example");
    assert_eq!(by_name.email, "alice@x.test");

    let by_email = auth.create_login_flow(None, Some("alice@x.test".to_string())).unwrap();
    assert_eq!(by_email.username, "@alice:auth.example");

    let unknown_name = auth.create_login_flow(Some("@bob:auth.example".to_string()), None);
    assert_eq!(unknown_name.unwrap_err(), ErrorCode::InvalidUsername);

    let unknown_email = auth.create_login_flow(None, Some("bob@x.test".to_string()));
    assert_eq!(unknown_email.unwrap_err(), ErrorCode::InvalidEmail);

    let neither = auth.create_login_flow(None, None);
    assert_eq!(neither.unwrap_err(), ErrorCode::Error);
}

#[test]
fn sign_out_removes_exactly_one_token() {
    let mut auth = fresh_auth();
    let code = auth
        .create_account_flow("@alice:auth.example".to_string(), "alice@x.test".to_string())
        .unwrap();
    let token = auth.finish_login_flow("@alice:auth.example", code).unwrap();

    let data = auth.get_all_data("@alice:auth.example", &token).unwrap();
    assert_eq!(data.tokens, vec![token.clone()]);
    assert_eq!(data.login_code, None);

    auth.sign_out("@alice:auth.example", &token).unwrap();
    let again = auth.sign_out("@alice:auth.example", &token);
    assert_eq!(again.unwrap_err(), ErrorCode::Unauthorized);

    let unauthorized = auth.get_all_data("@alice:auth.example", &token);
    assert_eq!(unauthorized.unwrap_err(), ErrorCode::Unauthorized);

    let unknown = auth.sign_out("@bob:auth.example", &token);
    assert_eq!(unknown.unwrap_err(), ErrorCode::InvalidUsername);
}

#[test]
fn change_email_two_phase() {
    let mut auth = fresh_auth();
    let code = auth
        .create_account_flow("@alice:auth.example".to_string(), "alice@x.test".to_string())
        .unwrap();
    let token = auth.finish_login_flow("@alice:auth.example", code).unwrap();

    let mail_code = auth
        .change_email_flow("@alice:auth.example", "new@x.test".to_string(), &token)
        .unwrap();
    let wrong = auth.finish_change_email_flow(
        "@alice:auth.example",
        "new@x.test".to_string(),
        &token,
        if mail_code == 999999 { 100000 } else { mail_code + 1 },
    );
    assert_eq!(wrong.unwrap_err(), ErrorCode::InvalidLoginCode);

    // The code survives a failed attempt only until it is consumed; mint a
    // fresh one for the real completion.
    let mail_code = auth
        .change_email_flow("@alice:auth.example", "new@x.test".to_string(), &token)
        .unwrap();
    auth.finish_change_email_flow("@alice:auth.example", "new@x.test".to_string(), &token, mail_code)
        .unwrap();

    let data = auth.get_all_data("@alice:auth.example", &token).unwrap();
    assert_eq!(data.email, "new@x.test");
    assert_eq!(data.pending_new_email, None);

    // The vacated old address is usable again; the new one is taken.
    auth.create_account_flow("@bob:auth.example".to_string(), "alice@x.test".to_string())
        .unwrap();
    let clash = auth.change_email_flow("@alice:auth.example", "alice@x.test".to_string(), &token);
    assert_eq!(clash.unwrap_err(), ErrorCode::EmailTaken);
}

#[test]
fn avatar_round_trip() {
    let mut auth = fresh_auth();
    let code = auth
        .create_account_flow("@alice:auth.example".to_string(), "alice@x.test".to_string())
        .unwrap();
    let token = auth.finish_login_flow("@alice:auth.example", code).unwrap();

    assert_eq!(auth.get_avatar_for_user("@alice:auth.example").unwrap(), "");
    auth.change_avatar("@alice:auth.example", &token, "https://x.test/a.png".to_string())
        .unwrap();
    assert_eq!(
        auth.get_avatar_for_user("@alice:auth.example").unwrap(),
        "https://x.test/a.png"
    );
    assert_eq!(
        auth.get_avatar_for_user("@bob:auth.example").unwrap_err(),
        ErrorCode::InvalidUsername
    );
    let bad_token = auth.change_avatar("@alice:auth.example", "ffff", "x".to_string());
    assert_eq!(bad_token.unwrap_err(), ErrorCode::Unauthorized);
}

#[test]
fn joined_server_list_keeps_set_semantics() {
    let mut auth = fresh_auth();
    let code = auth
        .create_account_flow("@alice:auth.example".to_string(), "alice@x.test".to_string())
        .unwrap();
    let token = auth.finish_login_flow("@alice:auth.example", code).unwrap();

    auth.add_server("@alice:auth.example", &token, "chat.example:5051".to_string())
        .unwrap();
    auth.add_server("@alice:auth.example", &token, "other.example:5051".to_string())
        .unwrap();
    let dup = auth.add_server("@alice:auth.example", &token, "chat.example:5051".to_string());
    assert_eq!(dup.unwrap_err(), ErrorCode::AlreadyJoinedServer);

    assert_eq!(
        auth.get_joined_servers("@alice:auth.example", &token).unwrap(),
        vec!["chat.example:5051".to_string(), "other.example:5051".to_string()]
    );

    auth.remove_server("@alice:auth.example", &token, "chat.example:5051")
        .unwrap();
    let gone = auth.remove_server("@alice:auth.example", &token, "chat.example:5051");
    assert_eq!(gone.unwrap_err(), ErrorCode::NotInServer);
    assert_eq!(
        auth.get_joined_servers("@alice:auth.example", &token).unwrap(),
        vec!["other.example:5051".to_string()]
    );
}

#[test]
fn delete_account_two_phase() {
    let mut auth = fresh_auth();
    let code = auth
        .create_account_flow("@alice:auth.example".to_string(), "alice@x.test".to_string())
        .unwrap();
    let token = auth.finish_login_flow("@alice:auth.example", code).unwrap();

    let task = auth.delete_account_flow("@alice:auth.example", &token).unwrap();
    assert_eq!(task.username, "@alice:auth.example");
    assert_eq!(task.email, "alice@x.test");

    auth.finish_delete_account_flow("@alice:auth.example", &token, task.code)
        .unwrap();
    assert_eq!(
        auth.get_avatar_for_user("@alice:auth.example").unwrap_err(),
        ErrorCode::InvalidUsername
    );

    // The username and the email are free again.
    auth.create_account_flow("@alice:auth.example".to_string(), "alice@x.test".to_string())
        .unwrap();
}
