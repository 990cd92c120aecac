use realm::{CUser, RealmAuthServer};

#[test]
fn decimal_rendering() {
    assert_eq!(realm::u64_to_string(0), "0");
    assert_eq!(realm::u64_to_string(7), "7");
    assert_eq!(realm::u64_to_string(5051), "5051");
    assert_eq!(realm::u64_to_string(100000), "100000");
    assert_eq!(realm::u64_to_string(999999), "999999");
    assert_eq!(realm::u64_to_string(18446744073709551615), "18446744073709551615");
}

#[test]
fn username_gate_examples() {
    assert!(realm::is_username_valid("@alice:auth.example", "auth.example"));
    assert!(realm::is_username_valid("@B0b123:auth.example", "auth.example"));
    assert!(!realm::is_username_valid("alice:auth.example", "auth.example"));
    assert!(!realm::is_username_valid("@alice:other.example", "auth.example"));
    assert!(!realm::is_username_valid("@:auth.example", "auth.example"));
    assert!(!realm::is_username_valid("@al-ce:auth.example", "auth.example"));
    assert!(!realm::is_username_valid("@alice", "auth.example"));
    assert!(!realm::is_username_valid("", "auth.example"));
}

#[test]
fn port_parsing() {
    assert_eq!(realm::parse_u16("0"), Some(0));
    assert_eq!(realm::parse_u16("5051"), Some(5051));
    assert_eq!(realm::parse_u16("65535"), Some(65535));
    assert_eq!(realm::parse_u16("65536"), None);
    assert_eq!(realm::parse_u16("99999999"), None);
    assert_eq!(realm::parse_u16(""), None);
    assert_eq!(realm::parse_u16("50a1"), None);
    assert_eq!(realm::parse_u16("-1"), None);
}

#[test]
fn server_address_parsing() {
    let (domain, port) = realm::parse_server_address("chat.example:5051").unwrap();
    assert_eq!(domain, "chat.example");
    assert_eq!(port, 5051);
    assert!(realm::parse_server_address("chat.example").is_none());
    assert!(realm::parse_server_address("chat.example:port").is_none());
    assert!(realm::parse_server_address("chat.example:70000").is_none());
}

#[test]
fn userid_routing_domain() {
    assert_eq!(realm::domain_of_userid("@alice:auth.example"), Some("auth.example"));
    assert_eq!(realm::domain_of_userid("plain"), None);
}

#[test]
fn login_codes_are_six_digits() {
    for _ in 0..64 {
        let code = realm::gen_login_code();
        assert!((100000..=999999).contains(&code), "{code}");
    }
}

#[test]
fn bearer_minting_shape() {
    let t = realm::mint_bearer("@alice:auth.example", 123456, "2024-05-01 00:00:00 UTC");
    assert_eq!(t.len(), 64);
    assert!(t.chars().all(|c| c.is_ascii_hexdigit() && !c.is_ascii_uppercase()));
    // The bearer is a function of its inputs.
    assert_eq!(t, realm::mint_bearer("@alice:auth.example", 123456, "2024-05-01 00:00:00 UTC"));
    assert_ne!(t, realm::mint_bearer("@alice:auth.example", 123457, "2024-05-01 00:00:00 UTC"));
}


#[test]
fn client_user_assembly() {
    let mut auth = RealmAuthServer::new("auth.example".to_string());
    let code = auth
        .create_account_flow("@alice:auth.example".to_string(), "alice@x.test".to_string())
        .unwrap();
    let token = auth.finish_login_flow("@alice:auth.example", code).unwrap();
    auth.add_server("@alice:auth.example", &token, "chat.example:5051".to_string())
        .unwrap();
    let account = auth.get_all_data("@alice:auth.example", &token).unwrap();

    let cuser = CUser::from_account("auth.example:5052".to_string(), token.clone(), account);
    assert_eq!(cuser.username, "@alice:auth.example");
    assert_eq!(cuser.email, "alice@x.test");
    assert_eq!(cuser.auth_address, "auth.example:5052");
    assert_eq!(cuser.server_addresses, vec!["chat.example:5051".to_string()]);
    assert_eq!(cuser.token, token);
}
