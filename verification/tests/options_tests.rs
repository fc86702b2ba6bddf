use mqttc::options::{ClientOptions, ReconnectMethod};

#[test]
fn defaults_match_policy() {
    let opts = ClientOptions::new();
    assert_eq!(opts.keep_alive, Some(5));
    assert!(opts.clean_session);
    assert_eq!(opts.client_id, None);
    assert_eq!(opts.username, None);
    assert_eq!(opts.password, None);
    assert_eq!(opts.reconnect, ReconnectMethod::ForeverDisconnect);
}

#[test]
fn setters_store_values() {
    let mut opts = ClientOptions::new();
    opts.set_keep_alive(30);
    opts.set_client_id(String::from("me"));
    opts.set_clean_session(false);
    opts.set_username(String::from("user"));
    opts.set_password(String::from("pw"));
    opts.set_reconnect(ReconnectMethod::ReconnectAfter(2000));
    assert_eq!(opts.keep_alive, Some(30));
    assert_eq!(opts.client_id.as_deref(), Some("me"));
    assert!(!opts.clean_session);
    assert_eq!(opts.username.as_deref(), Some("user"));
    assert_eq!(opts.password.as_deref(), Some("pw"));
    assert_eq!(opts.reconnect, ReconnectMethod::ReconnectAfter(2000));
}

#[test]
fn generated_client_id_has_token_shape() {
    let mut opts = ClientOptions::new();
    opts.generate_client_id();
    let id = opts.client_id.unwrap();
    assert!(id.starts_with("mqttc_"));
    let digits = &id["mqttc_".len()..];
    assert!(!digits.is_empty());
    assert!(digits.chars().all(|c| c.is_ascii_digit()));
}

#[test]
fn reconnect_policy_decides_retry() {
    // A fatal error with a reconnect policy retries after the delay ...
    assert_eq!(ReconnectMethod::ReconnectAfter(2000).retry_delay_ms(), Some(2000));
    // ... and without one the session ends.
    assert_eq!(ReconnectMethod::ForeverDisconnect.retry_delay_ms(), None);
}
