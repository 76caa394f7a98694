use outlook_email::crypto::{decrypt_text, derive_key, encrypt_text, rewrap_workspace_key, verify_password};
use outlook_email::error::AppError;
use outlook_email::markdown::{validate_markdown_parent, MarkdownCategory};
use outlook_email::models::ClearLocalDataInput;
use outlook_email::storage::{account_alias, cleanup_result, plan_local_cleanup, CleanupPlan};
use outlook_email::temp_mail::{
    batch_channel_id, batch_domain, plan_cloudflare_channel, CloudflareChannelCredentials,
    CloudflareChannelInput,
};

fn invalid(err: AppError) -> String {
    match err {
        AppError::InvalidInput(m) => m,
        other => panic!("unexpected {:?}", other),
    }
}

fn folder(id: i64, parent_id: Option<i64>) -> MarkdownCategory {
    MarkdownCategory { id, name: format!("f{id}"), parent_id }
}

#[test]
fn password_change_keeps_the_workspace_key() {
    let old_key = derive_key("old password", "salt-1");
    let wrapped = encrypt_text("workspace-key-material", &old_key).unwrap();
    let change = rewrap_workspace_key(&wrapped, "old password", "salt-1", "new password")
        .expect("nonce")
        .expect("rewrap");
    assert!(verify_password("new password", &change.hash).unwrap());
    assert!(!verify_password("old password", &change.hash).unwrap());
    assert_ne!(change.salt, "salt-1");
    let new_key = derive_key("new password", &change.salt);
    assert_eq!(decrypt_text(&change.workspace_key_enc, &new_key).unwrap(), "workspace-key-material");
    match rewrap_workspace_key(&wrapped, "wrong", "salt-1", "new password") {
        Some(Err(AppError::Crypto(_))) => {}
        other => panic!("unexpected {:?}", other),
    }
    assert!(rewrap_workspace_key("v1:AAAA:AAAA", "p", "s", "n").is_none());
}

#[test]
fn local_cleanup_needs_confirmation_and_a_category() {
    let mut input = ClearLocalDataInput {
        clear_mail_cache: Some(true),
        clear_attachments: None,
        clear_exports: Some(false),
        confirm: "clear local data".to_string(),
    };
    assert_eq!(
        invalid(plan_local_cleanup(&input).unwrap_err()),
        "type CLEAR LOCAL DATA to confirm local data cleanup"
    );
    input.confirm = " CLEAR LOCAL DATA ".to_string();
    assert_eq!(
        plan_local_cleanup(&input).unwrap(),
        CleanupPlan { mail_cache: true, attachments: false, exports: false }
    );
    input.clear_mail_cache = Some(false);
    assert_eq!(
        invalid(plan_local_cleanup(&input).unwrap_err()),
        "select at least one local data category to clear"
    );
    let report = cleanup_result(12, 3, 4096);
    assert!(report.success);
    assert_eq!(report.message, "Cleared local data: 12 mail message(s), 3 file(s)");
    assert_eq!((report.deleted_messages, report.deleted_files, report.freed_bytes), (12, 3, 4096));
}

#[test]
fn account_aliases_are_addresses_other_than_the_primary() {
    assert_eq!(account_alias("me@x.y", " Alias@X.Y ").unwrap(), "alias@x.y");
    assert_eq!(invalid(account_alias("me@x.y", "alias").unwrap_err()), "account alias email is invalid");
    assert_eq!(
        invalid(account_alias("me@x.y", " ME@x.y").unwrap_err()),
        "account alias cannot equal the primary email"
    );
}

#[test]
fn markdown_parents_are_checked_up_the_chain() {
    let folders = vec![
        folder(1, None),
        folder(2, Some(1)),
        folder(3, Some(2)),
        folder(4, Some(3)),
        folder(5, Some(4)),
    ];
    assert!(validate_markdown_parent(&folders, None, None).is_ok());
    assert!(validate_markdown_parent(&folders, None, Some(4)).is_ok());
    assert_eq!(
        invalid(validate_markdown_parent(&folders, None, Some(5)).unwrap_err()),
        "markdown folders support at most 5 levels"
    );
    assert_eq!(
        invalid(validate_markdown_parent(&folders, Some(2), Some(2)).unwrap_err()),
        "markdown folder cannot contain itself"
    );
    assert_eq!(
        invalid(validate_markdown_parent(&folders, Some(2), Some(3)).unwrap_err()),
        "markdown folder cannot move under its descendant"
    );
    assert_eq!(
        invalid(validate_markdown_parent(&folders, None, Some(9)).unwrap_err()),
        "markdown parent folder not found"
    );
}

#[test]
fn cloudflare_channels_keep_each_domain_once() {
    let mut input = CloudflareChannelInput {
        id: None,
        name: "  Main ".to_string(),
        worker_url: "https://worker.example.com/".to_string(),
        admin_password: Some("secret".to_string()),
        email_domains: vec![
            " @Mail.Example.com. ".to_string(),
            "mail.example.com".to_string(),
            " ".to_string(),
            "other.org".to_string(),
        ],
        enabled: None,
    };
    let plan = plan_cloudflare_channel(&input).unwrap();
    assert_eq!(plan.name, "Main");
    assert_eq!(plan.worker_url, "https://worker.example.com");
    let mut domains = plan.domains.clone();
    domains.sort();
    assert_eq!(domains, vec!["mail.example.com".to_string(), "other.org".to_string()]);
    assert!(plan.enabled);
    assert_eq!(plan.admin_password.as_deref(), Some("secret"));

    input.admin_password = Some(String::new());
    assert_eq!(invalid(plan_cloudflare_channel(&input).unwrap_err()), "admin password is required");
    input.id = Some(4);
    assert_eq!(plan_cloudflare_channel(&input).unwrap().admin_password, None);
    input.email_domains = vec![" @ ".to_string()];
    assert_eq!(
        invalid(plan_cloudflare_channel(&input).unwrap_err()),
        "at least one Cloudflare email domain is required"
    );
    input.name = " ".to_string();
    assert_eq!(invalid(plan_cloudflare_channel(&input).unwrap_err()), "channel name is required");
}

#[test]
fn cloudflare_batches_check_count_channel_and_domain() {
    assert_eq!(batch_channel_id(" CloudFlare ", 50, Some(3)).unwrap(), 3);
    assert_eq!(
        invalid(batch_channel_id("gptmail", 5, Some(3)).unwrap_err()),
        "batch generation currently supports Cloudflare only"
    );
    assert_eq!(invalid(batch_channel_id("cloudflare", 0, Some(3)).unwrap_err()), "count must be between 1 and 50");
    assert_eq!(invalid(batch_channel_id("cloudflare", 51, Some(3)).unwrap_err()), "count must be between 1 and 50");
    assert_eq!(invalid(batch_channel_id("cloudflare", 1, None).unwrap_err()), "Cloudflare channel is required");
    let channel = CloudflareChannelCredentials {
        worker_url: "https://w".to_string(),
        admin_password: "a".to_string(),
        domains: vec!["First.example".to_string(), "second.example".to_string()],
    };
    assert_eq!(batch_domain(None, &channel).unwrap(), "first.example");
    assert_eq!(batch_domain(Some(" @SECOND.example"), &channel).unwrap(), "second.example");
    assert_eq!(
        invalid(batch_domain(Some("third.example"), &channel).unwrap_err()),
        "selected domain does not belong to this Cloudflare channel"
    );
}
