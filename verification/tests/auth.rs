use openlink::auth::{
    check_server_secret, cid_from_access_token, exchange_provider, extract_cid_from_token,
    network_of_variable, AppConfig,
    AuthError,
};

#[test]
fn extract_cid_standard_format() {
    let cid = extract_cid_from_token("vatsim_123456").unwrap();
    assert_eq!(cid, "123456");
}

#[test]
fn extract_cid_no_underscore() {
    let result = extract_cid_from_token("nounderscore");
    // "nounderscore" has no _, rsplit returns "nounderscore" as the
    // first (and only) element, which is non-empty → Ok.
    assert!(result.is_ok());
    assert_eq!(result.unwrap(), "nounderscore");
}

#[test]
fn extract_cid_trailing_underscore() {
    let result = extract_cid_from_token("vatsim_");
    assert!(result.is_err());
}

#[test]
fn extract_cid_multiple_underscores() {
    let cid = extract_cid_from_token("some_prefix_12345").unwrap();
    assert_eq!(cid, "12345");
}

#[test]
fn default_config_has_vatsim() {
    let cfg = AppConfig::from_env_values(None, None, &[]);
    assert!(cfg.provider_for("vatsim").is_some());
    assert!(cfg.provider_for("vatsim").unwrap().token_url.contains("/token"));
}

#[test]
fn default_listen_port() {
    let cfg = AppConfig::from_env_values(None, None, &[]);
    assert_eq!(cfg.listen_port, 3001);
}

#[test]
fn unknown_network_returns_none() {
    let cfg = AppConfig::from_env_values(None, None, &[]);
    assert!(cfg.provider_for("unknown").is_none());
}

#[test]
fn configured_values_are_used() {
    let cfg = AppConfig::from_env_values(Some("8080"), Some("https://id.example/token".to_string()), &[]);
    assert_eq!(cfg.listen_port, 8080);
    assert_eq!(cfg.provider_for("vatsim").unwrap().token_url, "https://id.example/token");
    let bad = AppConfig::from_env_values(Some("port"), None, &[]);
    assert_eq!(bad.listen_port, 3001);
}

#[test]
fn exchange_requests_are_checked() {
    let cfg = AppConfig::from_env_values(None, None, &[]);
    assert!(exchange_provider(&cfg, "vatsim").is_ok());
    match exchange_provider(&cfg, "ivao") {
        Err(AuthError::UnknownNetwork(n)) => assert_eq!(n, "ivao"),
        _ => panic!("expected an unknown network"),
    }
    assert!(check_server_secret("s3cret", "s3cret").is_ok());
    match check_server_secret("guess", "s3cret") {
        Err(AuthError::OidcExchangeFailed(m)) => assert_eq!(m, "invalid server secret"),
        _ => panic!("expected a refusal"),
    }
}

#[test]
fn further_networks_come_from_their_variables() {
    let vars = vec![
        ("HOME".to_string(), "/root".to_string()),
        ("OIDC_ICAO_TOKEN_URL".to_string(), "http://idp.example/token".to_string()),
        ("OIDC_VATSIM_TOKEN_URL".to_string(), "http://other/token".to_string()),
        ("OIDC__TOKEN_URL".to_string(), "http://nobody/token".to_string()),
        ("OIDC_Icao_TOKEN_URL".to_string(), "http://second/token".to_string()),
    ];
    let cfg = AppConfig::from_env_values(None, Some("http://vatsim/token".to_string()), &vars);
    assert_eq!(cfg.provider_for("icao").unwrap().token_url, "http://idp.example/token");
    assert_eq!(cfg.provider_for("vatsim").unwrap().token_url, "http://vatsim/token");
    assert!(cfg.provider_for("").is_none());
    assert!(cfg.provider_for("home").is_none());
    assert_eq!(cfg.networks.len(), 2);
}

#[test]
fn network_variables_are_recognised() {
    assert_eq!(network_of_variable("OIDC_IVAO_TOKEN_URL"), Some("ivao".to_string()));
    assert_eq!(network_of_variable("OIDC__TOKEN_URL"), None);
    assert_eq!(network_of_variable("OIDC_TOKEN_URL"), None);
    assert_eq!(network_of_variable("AUTH_PORT"), None);
}

#[test]
fn errors_are_reported_with_their_message() {
    assert_eq!(AuthError::UnknownNetwork("ivao".to_string()).message(), "unknown network: ivao");
    assert_eq!(
        AuthError::OidcExchangeFailed("bad code".to_string()).message(),
        "OIDC authentication failed: bad code"
    );
    assert_eq!(AuthError::NKeyError("no seed".to_string()).message(), "NKey error: no seed");
    let json_err = serde_json::from_str::<u8>("x").unwrap_err();
    let m = AuthError::Serialization(json_err).message();
    assert!(m.starts_with("serialization error: "));
    assert!(m.len() > "serialization error: ".len());
}

#[test]
fn token_answer_gives_the_cid() {
    assert_eq!(cid_from_access_token(Some("vatsim_1234567")).unwrap(), "1234567");
    match cid_from_access_token(None) {
        Err(AuthError::OidcExchangeFailed(m)) => assert_eq!(m, "missing access_token"),
        _ => panic!("expected a failed exchange"),
    }
    match cid_from_access_token(Some("vatsim_")) {
        Err(AuthError::OidcExchangeFailed(m)) => {
            assert_eq!(m, "unexpected access_token format: vatsim_")
        },
        _ => panic!("expected a failed exchange"),
    }
}
