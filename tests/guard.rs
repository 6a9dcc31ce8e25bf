use reing::guard::{BasicAuth, ClientIP, ForceSSL};

#[test]
fn client_ip_keeps_the_reported_address() {
    assert_eq!(ClientIP::from_client_ip(Some(String::from("10.0.0.1"))).address(), "10.0.0.1");
    assert_eq!(ClientIP::from_client_ip(None).address(), "");
    assert_eq!(ClientIP(String::from("::1")).address(), "::1");
}

#[test]
fn basic_auth_accepts_the_encoded_credentials() {
    let sent = Some(String::from("Basic dXNlcjpwYXNz"));
    assert!(BasicAuth::from_authorization(sent, "user", "pass").is_some());
}

#[test]
fn basic_auth_refuses_other_credentials() {
    assert!(BasicAuth::from_authorization(Some(String::from("Basic dXNlcjpwYXNz")), "user", "word").is_none());
    assert!(BasicAuth::from_authorization(Some(String::from("Basic user:pass")), "user", "pass").is_none());
    assert!(BasicAuth::from_authorization(None, "user", "pass").is_none());
}

#[test]
fn force_ssl_applies_to_plain_http_only() {
    assert!(ForceSSL::from_forwarded_proto(Some(String::from("http"))).is_some());
    assert!(ForceSSL::from_forwarded_proto(Some(String::from("https"))).is_none());
    assert!(ForceSSL::from_forwarded_proto(None).is_none());
}
