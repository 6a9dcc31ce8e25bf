use reing::entity::Answerer;

#[test]
fn test_authentication() {
    let answerer = Answerer::new(
        1,
        String::from("example@example.com"),
        String::from("very very secure password"),
    )
    .unwrap();
    assert!(answerer.authenticate(String::from("very very secure password")));
    assert!(!answerer.authenticate(String::from("vary very secure password")));
}

#[test]
fn stored_hash_from_elsewhere_is_checked() {
    let answerer = Answerer {
        id: 1,
        email: String::from("example@example.com"),
        password_encrypted: String::from(
            "$2a$04$UuTkLRZZ6QofpDOlMz32MuuxEHA43WOemOYHPz6.SjsVsyO1tDU96",
        ),
    };
    assert!(answerer.authenticate(String::from("password")));
    assert!(!answerer.authenticate(String::from("Password")));
}

#[test]
fn malformed_hash_admits_nobody() {
    let answerer = Answerer {
        id: 1,
        email: String::from("example@example.com"),
        password_encrypted: String::from("not a hash"),
    };
    assert!(!answerer.authenticate(String::from("not a hash")));
}
