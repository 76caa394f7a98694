use outlook_email::error::AppError;
use outlook_email::models::AccountCredentials;
use outlook_email::storage::{
    account_provider_supports_capability, classify_error_category, mail_action_message,
    mail_provider_adapter, normalize_email, normalize_mail_folder, normalize_message_ids,
    normalize_oauth_provider, normalize_proxy_option, normalize_proxy_value, normalize_read_state,
    oauth_account_type, preview_secret, proxy_chain_from_values, require_provider_capability,
    require_provider_delete_capability, validate_login_username, validate_password,
    MailProviderAdapter,
};

fn account(provider: &str, account_type: &str, client_id: &str, refresh_token: &str) -> AccountCredentials {
    AccountCredentials {
        id: 7,
        email: "user@example.com".to_string(),
        provider: provider.to_string(),
        account_type: account_type.to_string(),
        client_id: client_id.to_string(),
        refresh_token: refresh_token.to_string(),
        imap_host: String::new(),
        imap_port: 993,
        proxy_chain: Vec::new(),
    }
}

fn invalid_message(err: AppError) -> String {
    match err {
        AppError::InvalidInput(message) => message,
        other => panic!("expected invalid input, got {:?}", other),
    }
}

#[test]
fn classifies_provider_specific_credential_errors() {
    assert_eq!(
        classify_error_category("IMAP login failed: NO [AUTHENTICATIONFAILED] invalid Gmail app password"),
        "auth"
    );
    assert_eq!(
        classify_error_category(
            "Gmail IMAP requires an app password; enable IMAP and save it as the IMAP password"
        ),
        "auth"
    );
    assert_eq!(
        classify_error_category("IMAP login failed: NO [AUTHENTICATIONFAILED] invalid QQ 授权码"),
        "auth"
    );
    assert_eq!(classify_error_category("163 客户端授权密码错误，请不要使用网页登录密码"), "auth");
    assert_eq!(classify_error_category("Gmail list messages failed: HTTP 429 rate limit"), "rate_limit");
}

#[test]
fn classifies_every_error_category() {
    assert_eq!(classify_error_category("   "), "none");
    assert_eq!(classify_error_category("Connection reset by peer"), "network");
    assert_eq!(classify_error_category("Client id is REQUIRED"), "config");
    assert_eq!(classify_error_category("database is locked"), "storage");
    assert_eq!(classify_error_category("could not parse response"), "data");
    assert_eq!(classify_error_category("Graph returned HTTP 503"), "provider");
    assert_eq!(classify_error_category("something odd"), "unknown");
}

#[test]
fn normalize_oauth_provider_rejects_google_aliases() {
    assert!(normalize_oauth_provider(Some("google")).is_err());
    assert!(normalize_oauth_provider(Some("gmail")).is_err());
    assert_eq!(normalize_oauth_provider(Some("outlook")).expect("outlook"), Some("graph".to_string()));
    assert_eq!(normalize_oauth_provider(Some("imap")).expect("imap"), Some("imap".to_string()));
    assert!(normalize_oauth_provider(Some("qq")).is_err());
}

#[test]
fn oauth_provider_errors_name_the_provider() {
    assert_eq!(normalize_oauth_provider(None).expect("none"), None);
    assert_eq!(normalize_oauth_provider(Some("  ")).expect("blank"), None);
    assert_eq!(
        invalid_message(normalize_oauth_provider(Some(" QQ ")).unwrap_err()),
        "unsupported OAuth provider: qq"
    );
    assert_eq!(
        invalid_message(normalize_oauth_provider(Some("Gmail")).unwrap_err()),
        "Gmail OAuth is disabled; use IMAP app password"
    );
}

#[test]
fn message_ids_keep_first_positive_occurrences() {
    assert_eq!(normalize_message_ids(&[3, -1, 3, 0, 9, 3, 9, 4]).expect("ids"), vec![3, 9, 4]);
    assert_eq!(
        invalid_message(normalize_message_ids(&[0, -5]).unwrap_err()),
        "select at least one message"
    );
    assert!(normalize_message_ids(&[]).is_err());
}

#[test]
fn mail_folders_and_read_states() {
    assert_eq!(normalize_mail_folder(" JUNK "), "junkemail");
    assert_eq!(normalize_mail_folder("Deleted"), "deleteditems");
    assert_eq!(normalize_mail_folder("inbox"), "inbox");
    assert_eq!(normalize_mail_folder("archive"), "all");
    assert_eq!(normalize_read_state(None).expect("default"), "all");
    assert_eq!(normalize_read_state(Some(" ")).expect("blank"), "all");
    assert_eq!(normalize_read_state(Some("UNREAD")).expect("unread"), "unread");
    assert_eq!(
        invalid_message(normalize_read_state(Some("seen")).unwrap_err()),
        "read_state must be all, read, or unread"
    );
}

#[test]
fn oauth_account_type_uses_the_registry() {
    assert_eq!(oauth_account_type("outlook"), "outlook");
    assert_eq!(oauth_account_type("imap"), "imap");
    assert_eq!(oauth_account_type("unknown-provider"), "unknown-provider");
}

#[test]
fn mail_action_messages_summarize_failures() {
    assert_eq!(mail_action_message("marked", 3, 0, &[]), "marked 3 message(s)");
    let errors = vec!["e1".to_string(), "e2".to_string()];
    assert_eq!(
        mail_action_message("deleted", 2, 2, &errors),
        "deleted 2 local message(s), 2 remote sync failed: e1; e2"
    );
    let many = vec!["a".to_string(), "b".to_string(), "c".to_string(), "d".to_string()];
    assert_eq!(
        mail_action_message("deleted", 5, 4, &many),
        "deleted 5 local message(s), 4 remote sync failed: a; b; c; ..."
    );
}

#[test]
fn emails_and_proxies_are_normalized() {
    assert_eq!(normalize_email("  User@Example.COM ").expect("email"), "user@example.com");
    assert_eq!(invalid_message(normalize_email("nobody").unwrap_err()), "email is invalid");
    assert_eq!(normalize_proxy_value(None).expect("none"), "");
    assert_eq!(normalize_proxy_value(Some("  ")).expect("blank"), "");
    assert_eq!(normalize_proxy_value(Some(" HTTP://p:1 ")).expect("proxy"), "HTTP://p:1");
    assert_eq!(
        invalid_message(normalize_proxy_value(Some("socks5://p")).unwrap_err()),
        "proxy URL must start with http:// or https://"
    );
    assert_eq!(normalize_proxy_option(None).expect("none"), None);
    assert_eq!(normalize_proxy_option(Some("https://x")).expect("some"), Some("https://x".to_string()));
    assert_eq!(
        proxy_chain_from_values(&["http://a", "", "HTTP://A", "https://b"]).expect("chain"),
        vec!["http://a".to_string(), "https://b".to_string()]
    );
    assert!(proxy_chain_from_values(&["http://a", "ftp://b"]).is_err());
}

#[test]
fn secrets_are_masked() {
    assert_eq!(preview_secret("short"), "*****");
    assert_eq!(preview_secret(""), "");
    assert_eq!(preview_secret("abcdefghijklmnop"), "abcd...mnop");
    assert_eq!(preview_secret("abé日本語xyzw"), "abé...xyzw");
}

#[test]
fn login_rules() {
    assert!(validate_password("12345678").is_ok());
    assert_eq!(
        invalid_message(validate_password("1234567").unwrap_err()),
        "login password must be at least 8 characters"
    );
    assert!(validate_password("密码密码密").is_ok());
    assert!(validate_login_username("  ADMIN ").is_ok());
    assert!(matches!(validate_login_username("root"), Err(AppError::Unauthorized)));
}

#[test]
fn provider_adapters_and_capabilities() {
    assert_eq!(mail_provider_adapter(&account("Outlook", "", "", "")).expect("a"), MailProviderAdapter::Graph);
    assert_eq!(mail_provider_adapter(&account("qq", "", "", "")).expect("a"), MailProviderAdapter::Imap);
    assert_eq!(mail_provider_adapter(&account("", "graph", "", "")).expect("a"), MailProviderAdapter::Graph);
    assert_eq!(mail_provider_adapter(&account("", "", "cid", "rt")).expect("a"), MailProviderAdapter::Graph);
    assert_eq!(mail_provider_adapter(&account("", "", "cid", "")).expect("a"), MailProviderAdapter::Imap);
    assert!(account_provider_supports_capability(&account("nothing", "gmail", "", ""), "imap_folders"));
    assert!(require_provider_capability(&account("qq", "", "", ""), "imap_folders", "folders").is_ok());
    assert_eq!(
        invalid_message(require_provider_capability(&account("graph", "", "", ""), "imap_folders", "folders").unwrap_err()),
        "mail provider graph does not support folders"
    );
    assert!(require_provider_delete_capability(&account("graph", "", "", "")).is_ok());
    assert_eq!(
        invalid_message(require_provider_delete_capability(&account("custom-x", "", "", "")).unwrap_err()),
        "mail provider custom-x does not support remote delete"
    );
}
