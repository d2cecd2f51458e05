use liven::client::{connect_target, ConnectTarget};
use liven::access::{
    is_console_request, login_grant, login_token, request_key_id, role_change, session_cookie, session_expired,
    session_set_cookie, session_token,
};

#[test]
fn session_cookie_is_found_among_cookies() {
    assert_eq!(session_cookie("theme=dark; liven_session = abc123 ; x=1"), Some("abc123".to_string()));
    assert_eq!(session_cookie("liven_session=a=b; liven_session=ok"), Some("ok".to_string()));
    assert_eq!(session_cookie("other=1"), None);
    assert_eq!(session_cookie(""), None);
    assert_eq!(session_cookie("liven_session="), Some(String::new()));
}

#[test]
fn session_token_prefers_the_cookie_then_the_bearer_header() {
    assert_eq!(session_token(Some("liven_session=c1"), Some("Bearer t1")), Some("c1".to_string()));
    assert_eq!(session_token(Some("other=1"), Some("Bearer t1 ")), Some("t1".to_string()));
    assert_eq!(session_token(None, Some("  raw-token ")), Some("raw-token".to_string()));
    assert_eq!(session_token(None, Some("bearer x")), Some("bearer x".to_string()));
    assert_eq!(session_token(Some("x=1"), None), None);
    assert_eq!(session_token(None, None), None);
}

#[test]
fn sessions_expire_after_thirty_idle_minutes() {
    assert!(!session_expired(0, 0));
    assert!(!session_expired(1800, 0));
    assert!(session_expired(1800, 1));
    assert!(session_expired(1801, 0));
    assert!(session_expired(30000, 0));
    assert_eq!(
        session_set_cookie("s1"),
        "liven_session=s1; HttpOnly; SameSite=Lax; Max-Age=28800; Path=/"
    );
}

#[test]
fn console_requests_are_recognised_by_host_origin_or_referer() {
    assert!(is_console_request(Some("localhost:43120"), None, None, "0.0.0.0", 43120));
    assert!(is_console_request(Some("0.0.0.0:43120"), None, None, "0.0.0.0", 43120));
    assert!(is_console_request(None, Some("http://127.0.0.1:43120"), None, "0.0.0.0", 43120));
    assert!(is_console_request(None, Some("https://[::1]:43120"), None, "0.0.0.0", 43120));
    assert!(is_console_request(None, None, Some("http://localhost:43120/app/page"), "0.0.0.0", 43120));
    assert!(!is_console_request(Some("evil.com"), Some("http://evil.com"), Some("http://evil.com/x"), "0.0.0.0", 43120));
    assert!(!is_console_request(Some("localhost:1"), None, None, "0.0.0.0", 43120));
    assert!(!is_console_request(None, None, Some("localhost:43120"), "0.0.0.0", 43120));
    assert!(!is_console_request(None, None, None, "0.0.0.0", 43120));
}

#[test]
fn login_and_key_management_rules() {
    assert_eq!(login_token("  k  "), Ok("k".to_string()));
    assert_eq!(login_token("   "), Err("Authorization key cannot be empty".to_string()));
    assert_eq!(login_grant("active", "admin"), Ok("root".to_string()));
    assert_eq!(login_grant("active", "write"), Ok("write".to_string()));
    assert_eq!(
        login_grant("revoked", "admin"),
        Err("Authentication failed: This key has been revoked.".to_string())
    );
    assert_eq!(role_change(" Write-Delete ", " key-1 "), Ok(("write-delete".to_string(), "key-1".to_string())));
    assert_eq!(role_change("owner", "key-1"), Err("Invalid role".to_string()));
    assert_eq!(role_change("admin", "  "), Err("Key ID cannot be empty".to_string()));
    assert_eq!(request_key_id(" k2 "), Ok("k2".to_string()));
    assert_eq!(request_key_id(""), Err("Key ID cannot be empty".to_string()));
}

#[test]
fn connection_strings_name_the_address_and_the_token() {
    assert_eq!(
        connect_target("liven://127.0.0.1:43121?auth_key=abc", "me", "none"),
        ConnectTarget { address: "127.0.0.1:43121".to_string(), token: Some("abc".to_string()) }
    );
    assert_eq!(
        connect_target("127.0.0.1:43121", "me", "auth_key"),
        ConnectTarget { address: "127.0.0.1:43121".to_string(), token: Some("me".to_string()) }
    );
    assert_eq!(
        connect_target("h:1?x=1&auth_key=k1&auth_key=k2", "me", "none"),
        ConnectTarget { address: "h:1".to_string(), token: Some("k2".to_string()) }
    );
    assert_eq!(
        connect_target("h:1?auth_key=a=b", "me", "none"),
        ConnectTarget { address: "h:1".to_string(), token: None }
    );
    assert_eq!(connect_target("h:1?", "me", "none"), ConnectTarget { address: "h:1".to_string(), token: None });
}
