use mqtt2timescale::credentials::{CredentialsError, MqttCredentials};

#[test]
fn splits_at_the_first_colon() {
    let c = MqttCredentials::parse(b"alice:secret").unwrap();
    assert_eq!(c.username, b"alice".to_vec());
    assert_eq!(c.password, b"secret".to_vec());
}

#[test]
fn a_password_may_hold_colons() {
    let c = MqttCredentials::parse(b"a:b:c").unwrap();
    assert_eq!(c.username, b"a".to_vec());
    assert_eq!(c.password, b"b:c".to_vec());
}

#[test]
fn either_side_may_be_empty() {
    let c = MqttCredentials::parse(b":").unwrap();
    assert_eq!(c.username, b"".to_vec());
    assert_eq!(c.password, b"".to_vec());
}

#[test]
fn text_without_a_colon_is_refused() {
    assert_eq!(
        MqttCredentials::parse(b"alice").unwrap_err(),
        CredentialsError::MissingSeparator
    );
    assert_eq!(MqttCredentials::parse(b"").unwrap_err(), CredentialsError::MissingSeparator);
}
