use outlook_email::error::AppError;
use outlook_email::models::{AccountCredentials, OAuthAuthUrlInput};
use outlook_email::oauth::{
    build_graph_auth_url, external_url, extract_code, imap_auth_plan, oauth_token_error, ImapAuthPlan,
    XOAuth2Authenticator, EXPIRED_CODE_ADVICE, INVALID_CODE_ADVICE,
};

fn input(provider: Option<&str>, hint: Option<&str>) -> OAuthAuthUrlInput {
    OAuthAuthUrlInput {
        client_id: " my client ".to_string(),
        redirect_uri: "http://localhost:8080".to_string(),
        login_hint: hint.map(|h| h.to_string()),
        provider: provider.map(|p| p.to_string()),
    }
}

fn account(provider: &str, client_id: &str, refresh_token: &str) -> AccountCredentials {
    AccountCredentials {
        id: 1,
        email: "u@x.y".to_string(),
        provider: provider.to_string(),
        account_type: String::new(),
        client_id: client_id.to_string(),
        refresh_token: refresh_token.to_string(),
        imap_host: String::new(),
        imap_port: 993,
        proxy_chain: Vec::new(),
    }
}

#[test]
fn rejects_gmail_oauth_auth_url() {
    let error = build_graph_auth_url(&OAuthAuthUrlInput {
        client_id: "google-client".to_string(),
        redirect_uri: "http://127.0.0.1:53682/callback".to_string(),
        login_hint: Some("person@gmail.com".to_string()),
        provider: Some("gmail".to_string()),
    })
    .expect_err("gmail oauth disabled");
    assert!(error.message().contains("IMAP app password"));
}

#[test]
fn authorization_urls_encode_their_parameters() {
    let url = build_graph_auth_url(&input(None, Some(" a+b@x.y "))).expect("url");
    assert_eq!(
        url,
        "https://login.microsoftonline.com/common/oauth2/v2.0/authorize?client_id=my%20client&response_type=code&redirect_uri=http%3A%2F%2Flocalhost%3A8080&response_mode=query&scope=offline_access+https%3A%2F%2Fgraph.microsoft.com%2FMail.Read+https%3A%2F%2Fgraph.microsoft.com%2FMail.ReadWrite+https%3A%2F%2Fgraph.microsoft.com%2FUser.Read&state=12345&login_hint=a%2Bb%40x.y"
    );
    let imap = build_graph_auth_url(&input(Some("imap"), Some("  "))).expect("url");
    assert!(imap.ends_with("&scope=offline_access+https%3A%2F%2Foutlook.office.com%2FIMAP.AccessAsUser.All&state=12345"));
    let mut missing = input(None, None);
    missing.client_id = " ".to_string();
    assert!(matches!(build_graph_auth_url(&missing), Err(AppError::InvalidInput(m)) if m == "Microsoft client id is required"));
}

#[test]
fn codes_are_read_from_callbacks() {
    assert_eq!(extract_code(" abc 123 ").expect("code"), "abc123");
    assert_eq!(
        extract_code("http://localhost:8080/?code=M.C%2B1&state=12345").expect("code"),
        "M.C+1"
    );
    assert!(matches!(extract_code("  "), Err(AppError::InvalidInput(m)) if m == "OAuth code or callback URL is required"));
    assert!(matches!(extract_code("https://x/?state=1"), Err(AppError::InvalidInput(m)) if m == "callback URL does not contain code"));
    assert!(matches!(extract_code("https://x/?code=%FF"), Err(AppError::InvalidInput(m)) if m.starts_with("invalid OAuth code encoding: ")));
}

#[test]
fn token_errors_are_explained() {
    let expired = oauth_token_error("400 Bad Request", r#"{"error":"invalid_grant","error_description":"AADSTS70000: code has expired"}"#);
    assert!(matches!(expired, AppError::InvalidInput(m) if m == EXPIRED_CODE_ADVICE));
    let invalid = oauth_token_error("400 Bad Request", r#"{"error":"invalid_grant","error_description":"bad"}"#);
    assert!(matches!(invalid, AppError::InvalidInput(m) if m == INVALID_CODE_ADVICE));
    let other = oauth_token_error("500 Internal Server Error", "oops");
    assert!(matches!(other, AppError::Internal(m) if m == "OAuth token request failed: HTTP 500 Internal Server Error oops"));
}

#[test]
fn formats_xoauth2_sasl_response() {
    let auth = XOAuth2Authenticator {
        user: "user@example.com".to_string(),
        access_token: "token-value".to_string(),
    };
    assert_eq!(auth.process(b""), "user=user@example.com\x01auth=Bearer token-value\x01\x01");
}

#[test]
fn imap_logins_follow_the_provider() {
    assert!(matches!(imap_auth_plan(&account("IMAP", "c", "r")), Ok(ImapAuthPlan::RefreshOAuth)));
    assert!(matches!(imap_auth_plan(&account("imap", "", "r")), Err(AppError::InvalidInput(m)) if m == "IMAP OAuth requires client ID and refresh token"));
    assert!(matches!(imap_auth_plan(&account("qq", "", " code ")), Ok(ImapAuthPlan::Password(p)) if p == "code"));
    assert!(matches!(imap_auth_plan(&account("gmail", "", "")), Err(AppError::InvalidInput(m)) if m == "gmail requires an app password or auth code"));
    assert!(matches!(imap_auth_plan(&account("graph", "c", "r")), Ok(ImapAuthPlan::RefreshOAuth)));
    assert!(matches!(imap_auth_plan(&account("other", "", "")), Err(AppError::InvalidInput(m)) if m == "IMAP credentials are missing"));
}

#[test]
fn only_web_links_open_in_the_browser() {
    assert_eq!(external_url("  https://login.microsoftonline.com/x ").unwrap(), "https://login.microsoftonline.com/x");
    assert_eq!(external_url("http://localhost:8080").unwrap(), "http://localhost:8080");
    match external_url("file:///etc/passwd") {
        Err(AppError::InvalidInput(m)) => assert_eq!(m, "only http or https URLs can be opened"),
        other => panic!("unexpected {:?}", other),
    }
    assert!(external_url("").is_err());
}

#[test]
fn exchange_provider_and_token_report() {
    use_exchange_checks();
}

fn use_exchange_checks() {
    assert_eq!(outlook_email::storage::oauth_exchange_provider(None, None).unwrap(), "graph");
    assert_eq!(outlook_email::storage::oauth_exchange_provider(Some(" IMAP "), Some("graph")).unwrap(), "imap");
    assert_eq!(outlook_email::storage::oauth_exchange_provider(None, Some("imap")).unwrap(), "imap");
    assert!(outlook_email::storage::oauth_exchange_provider(Some("gmail"), None).is_err());
    let token = outlook_email::oauth::OAuthTokenResponse {
        access_token: "a".to_string(),
        refresh_token: "0123456789abcdef".to_string(),
        expires_in: 3600,
        scope: "Mail.Read".to_string(),
    };
    assert!(outlook_email::storage::preview_is_cuttable(&token.refresh_token));
    let report = outlook_email::storage::oauth_token_result(None, token.clone());
    assert_eq!(report.refresh_token_preview, "0123...cdef");
    assert_eq!(report.refresh_token.as_deref(), Some("0123456789abcdef"));
    assert_eq!((report.scope.as_str(), report.expires_in), ("Mail.Read", 3600));
    assert!(outlook_email::storage::oauth_token_result(Some(4), token).refresh_token.is_none());
    assert!(!outlook_email::storage::preview_is_cuttable("ab猫defghijk"));
}
