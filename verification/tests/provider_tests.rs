use outlook_email::error::AppError;
use outlook_email::models::AccountCredentials;
use outlook_email::providers::{
    build_imap_select_variants, classify_imap_mailbox, detect_mail_provider,
    fetched_imap_uids_cover, folders_for, imap_select_error, format_graph_email_address, graph_message_page_size,
    imap_uid_validity_changed, mail_provider_capabilities, mail_provider_definition,
    mail_provider_supports_capability, microsoft_oauth_scope, normalize_imap_mailbox_name,
    normalize_mail_provider_id, recipients_to_string, should_send_imap_client_id, text_preview,
    GraphEmailAddress, GraphRecipient, ImapMailboxMap, GRAPH_SCOPE, IMAP_OAUTH_SCOPE,
    MAIL_REFRESH_MAX_TOP,
};

fn account_with_provider(provider: &str) -> AccountCredentials {
    AccountCredentials {
        id: 1,
        email: "user@example.com".to_string(),
        provider: provider.to_string(),
        account_type: "imap".to_string(),
        client_id: String::new(),
        refresh_token: String::new(),
        imap_host: String::new(),
        imap_port: 993,
        proxy_chain: Vec::new(),
    }
}

#[test]
fn folders_for_default_skips_deleted_items() {
    assert_eq!(folders_for("inbox_junk"), vec!["inbox", "junkemail"]);
    assert_eq!(folders_for("all"), vec!["inbox", "junkemail"]);
    assert_eq!(folders_for("unknown"), vec!["inbox", "junkemail"]);
}

#[test]
fn graph_message_pages_respect_the_api_limit_while_allowing_two_thousand_total() {
    assert_eq!(MAIL_REFRESH_MAX_TOP, 2000);
    assert_eq!(graph_message_page_size(2000), 1000);
    assert_eq!(graph_message_page_size(1000), 1000);
    assert_eq!(graph_message_page_size(725), 725);
}

#[test]
fn imap_uid_validity_initialization_preserves_cache_and_known_changes_rebuild() {
    assert!(!imap_uid_validity_changed(None, Some(7)));
    assert!(!imap_uid_validity_changed(Some(7), Some(7)));
    assert!(imap_uid_validity_changed(Some(7), Some(8)));
    assert!(!imap_uid_validity_changed(Some(7), None));
}

#[test]
fn imap_uid_fetch_must_return_every_requested_message_body() {
    let fetched = vec!["5".to_string()];
    assert!(fetched_imap_uids_cover(&fetched, &[5]));
    assert!(!fetched_imap_uids_cover(&fetched, &[5, 6]));
    assert!(!fetched_imap_uids_cover(&[], &[5]));
}

#[test]
fn classifies_imap_special_use_and_common_mailbox_names() {
    assert_eq!(classify_imap_mailbox(&["junk".to_string()], "Mailbox"), Some("junkemail"));
    assert_eq!(classify_imap_mailbox(&["trash".to_string()], "Mailbox"), Some("deleteditems"));
    assert_eq!(classify_imap_mailbox(&[], "INBOX"), Some("inbox"));
    assert_eq!(classify_imap_mailbox(&["inbox".to_string()], "Mailbox"), Some("inbox"));
    assert_eq!(classify_imap_mailbox(&[], "其他文件夹/收件箱"), Some("inbox"));
    assert_eq!(classify_imap_mailbox(&[], "[Gmail]/Spam"), Some("junkemail"));
    assert_eq!(classify_imap_mailbox(&[], "Deleted Items"), Some("deleteditems"));
    assert_eq!(classify_imap_mailbox(&[], "垃圾邮件"), Some("junkemail"));
    assert_eq!(classify_imap_mailbox(&[], "已删除邮件"), Some("deleteditems"));
    assert_eq!(classify_imap_mailbox(&[], "回收站"), Some("deleteditems"));
    assert_eq!(classify_imap_mailbox(&[], "Archive"), None);
}

#[test]
fn formats_graph_sender_with_display_name() {
    let sender = format_graph_email_address(GraphEmailAddress {
        name: Some("OpenAI".to_string()),
        address: "noreply@tm.openai.com".to_string(),
    });
    assert_eq!(sender, "OpenAI <noreply@tm.openai.com>");
}

#[test]
fn formats_graph_sender_without_display_name() {
    let sender = format_graph_email_address(GraphEmailAddress {
        name: Some("   ".to_string()),
        address: "a@b.c".to_string(),
    });
    assert_eq!(sender, "a@b.c");
}

#[test]
fn build_imap_select_variants_includes_quoted_and_unquoted_names() {
    assert_eq!(
        build_imap_select_variants("INBOX"),
        vec!["INBOX".to_string(), "\"INBOX\"".to_string()]
    );
    assert_eq!(
        build_imap_select_variants("\"垃圾邮件\""),
        vec!["\"垃圾邮件\"".to_string(), "垃圾邮件".to_string()]
    );
}

#[test]
fn should_send_imap_client_id_for_qq_gmail_and_custom_providers() {
    assert!(should_send_imap_client_id(&account_with_provider("qq")));
    assert!(should_send_imap_client_id(&account_with_provider("gmail")));
    assert!(should_send_imap_client_id(&account_with_provider("imap_custom")));
    assert!(should_send_imap_client_id(&account_with_provider("netease_163")));
    assert!(!should_send_imap_client_id(&account_with_provider("graph")));
}

#[test]
fn detects_mail_provider_registry_defaults() {
    let gmail = detect_mail_provider("person@gmail.com", None, false).expect("gmail");
    assert_eq!(gmail.id, "gmail");
    assert_eq!(gmail.account_type, "imap");
    assert_eq!(gmail.default_imap_host, "imap.gmail.com");
    assert!(gmail.capabilities.contains(&"imap_folders"));
    assert!(gmail.capabilities.contains(&"remote_delete"));

    let qq = detect_mail_provider("user@foxmail.com", None, false).expect("qq");
    assert_eq!(qq.id, "qq");
    assert_eq!(qq.default_imap_host, "imap.qq.com");
    assert!(qq.capabilities.contains(&"imap_folders"));
    assert!(qq.capabilities.contains(&"remote_delete"));

    let netease = detect_mail_provider("manual@example.com", Some("163"), false).expect("163");
    assert_eq!(netease.id, "netease_163");
    assert_eq!(netease.default_imap_host, "imap.163.com");
    assert!(netease.capabilities.contains(&"imap_folders"));

    let graph = detect_mail_provider("user@example.com", None, true).expect("graph");
    assert_eq!(graph.id, "graph");
    assert!(graph.capabilities.contains(&"remote_delete"));
}

#[test]
fn provider_ids_normalize_aliases_and_case() {
    assert_eq!(normalize_mail_provider_id("  Outlook "), Some("graph"));
    assert_eq!(normalize_mail_provider_id("GoogleMail"), Some("gmail"));
    assert_eq!(normalize_mail_provider_id("163"), Some("netease_163"));
    assert_eq!(normalize_mail_provider_id(""), None);
    assert_eq!(normalize_mail_provider_id("yahoo"), None);
    let d = mail_provider_definition("custom").expect("custom");
    assert_eq!(d.id, "imap_custom");
    assert!(mail_provider_capabilities("nope").is_none());
    assert!(mail_provider_supports_capability("qq", "imap_folders"));
    assert!(!mail_provider_supports_capability("graph", "imap_folders"));
}

#[test]
fn normalizing_a_provider_id_twice_changes_nothing() {
    for name in ["msgraph", "QQMail", "custom_imap", "netease", "imap"] {
        let id = normalize_mail_provider_id(name).expect("known");
        assert_eq!(normalize_mail_provider_id(id), Some(id));
    }
}

#[test]
fn oauth_scope_follows_the_provider() {
    assert_eq!(microsoft_oauth_scope(Some(" IMAP ")), IMAP_OAUTH_SCOPE);
    assert_eq!(microsoft_oauth_scope(Some("graph")), GRAPH_SCOPE);
    assert_eq!(microsoft_oauth_scope(None), GRAPH_SCOPE);
}

#[test]
fn mailbox_map_keeps_the_first_mailbox_for_a_folder() {
    let mut map = ImapMailboxMap::default();
    map.set_if_missing("junkemail", "Spam");
    map.set_if_missing("junkemail", "Junk");
    assert_eq!(map.mailbox_for("junkemail"), "Spam");
    assert_eq!(map.mailbox_for("inbox"), "INBOX");
}

#[test]
fn mailbox_names_are_normalized_for_matching() {
    assert_eq!(normalize_imap_mailbox_name("[Gmail]\\Sent_Mail-X"), "[gmail]/sentmailx");
}

#[test]
fn previews_and_recipient_lists() {
    assert_eq!(text_preview("one  two\nthree four", 3), "one two three");
    let list = recipients_to_string(Some(vec![
        GraphRecipient {
            email_address: Some(GraphEmailAddress { name: None, address: "a@x.y".to_string() }),
        },
        GraphRecipient { email_address: None },
        GraphRecipient {
            email_address: Some(GraphEmailAddress {
                name: Some("B".to_string()),
                address: "b@x.y".to_string(),
            }),
        },
    ]));
    assert_eq!(list, "a@x.y, b@x.y");
    assert_eq!(recipients_to_string(None), "");
}

#[test]
fn select_errors_explain_netease_unsafe_login() {
    match imap_select_error("INBOX", "NO [UNAVAILABLE] Unsafe Login. Please contact kefu@188.com") {
        AppError::Internal(m) => {
            assert!(m.starts_with("IMAP select INBOX failed: 163/网易邮箱拒绝第三方客户端登录（Unsafe Login）。"));
            assert!(m.ends_with("原始错误：NO [UNAVAILABLE] Unsafe Login. Please contact kefu@188.com"));
        }
        other => panic!("unexpected {:?}", other),
    }
    match imap_select_error("Junk", "NO mailbox does not exist") {
        AppError::Internal(m) => assert_eq!(m, "IMAP select Junk failed: NO mailbox does not exist"),
        other => panic!("unexpected {:?}", other),
    }
}

#[test]
fn imap_message_ids_read_as_uids() {
    assert_eq!(outlook_email::providers::imap_message_uid(" 42 ").unwrap(), 42);
    assert_eq!(outlook_email::providers::imap_message_uid("+7").unwrap(), 7);
    match outlook_email::providers::imap_message_uid("local-demo-1") {
        Err(AppError::InvalidInput(m)) => assert_eq!(m, "IMAP message id is not a UID"),
        other => panic!("unexpected {:?}", other),
    }
    assert!(outlook_email::providers::imap_message_uid("4294967296").is_err());
    assert_eq!(
        outlook_email::storage::mail_action_error(-3, "AAMk", "internal error: HTTP 404"),
        "#-3 AAMk: internal error: HTTP 404"
    );
}
