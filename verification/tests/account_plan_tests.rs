use outlook_email::error::AppError;
use outlook_email::models::{OAuthSaveAccountInput, Settings, UpdateAccountInput};
use outlook_email::storage::{
    accepted_refresh_token, account_aliases, batch_account_ids, batch_action, batch_result, checked_email,
    confirm_secret_export, normalize_settings, plan_account_update, plan_oauth_save,
    refresh_top_for_input, selected_account_ids, share_expiry_days, share_title,
    share_token_preview, BatchAction, OAuthTokenSource,
};

fn invalid(err: AppError) -> String {
    match err {
        AppError::InvalidInput(m) => m,
        other => panic!("unexpected {:?}", other),
    }
}

fn update_input(email: &str) -> UpdateAccountInput {
    UpdateAccountInput {
        id: 1,
        email: email.to_string(),
        group_id: None,
        remark: None,
        status: None,
        provider: None,
        account_type: None,
        imap_host: None,
        imap_port: None,
        proxy_url: None,
        fallback_proxy_url_1: None,
        fallback_proxy_url_2: None,
        mail_retention_days: None,
        client_id: None,
        refresh_token: None,
        aliases: None,
    }
}

fn oauth_input(email: &str, client_id: &str) -> OAuthSaveAccountInput {
    OAuthSaveAccountInput {
        email: email.to_string(),
        group_id: None,
        remark: None,
        client_id: client_id.to_string(),
        redirect_uri: "http://localhost".to_string(),
        code_or_url: None,
        refresh_token: None,
        provider: None,
        code_verifier: None,
    }
}

#[test]
fn account_edits_take_provider_defaults() {
    let mut input = update_input("  User@Example.COM ");
    input.provider = Some(" gmail ".to_string());
    input.mail_retention_days = Some(99999);
    let plan = plan_account_update(&input).unwrap();
    assert_eq!(plan.email, "user@example.com");
    assert_eq!(plan.provider.as_deref(), Some("gmail"));
    assert_eq!(plan.account_type.as_deref(), Some("imap"));
    assert_eq!(plan.imap_host.as_deref(), Some("imap.gmail.com"));
    assert_eq!(plan.imap_port, Some(993));
    assert_eq!(plan.mail_retention_days, Some(3650));
    assert_eq!(plan.proxy_url, None);
}

#[test]
fn account_edits_keep_what_is_given() {
    let mut input = update_input("a@b.c");
    input.provider = Some("qq".to_string());
    input.imap_host = Some("mail.example.com".to_string());
    input.imap_port = Some(143);
    input.account_type = Some("custom".to_string());
    input.mail_retention_days = Some(0);
    input.proxy_url = Some(" HTTP://proxy:8080 ".to_string());
    input.fallback_proxy_url_1 = Some("  ".to_string());
    let plan = plan_account_update(&input).unwrap();
    assert_eq!(plan.imap_host.as_deref(), Some("mail.example.com"));
    assert_eq!(plan.imap_port, Some(143));
    assert_eq!(plan.account_type.as_deref(), Some("custom"));
    assert_eq!(plan.mail_retention_days, Some(1));
    assert_eq!(plan.proxy_url.as_deref(), Some("HTTP://proxy:8080"));
    assert_eq!(plan.fallback_proxy_url_1.as_deref(), Some(""));
    assert_eq!(plan.fallback_proxy_url_2, None);

    let mut blank_host = update_input("a@b.c");
    blank_host.imap_host = Some(" ".to_string());
    let plan = plan_account_update(&blank_host).unwrap();
    assert_eq!(plan.imap_host.as_deref(), Some(" "));
    assert_eq!(plan.provider, None);
    assert_eq!(plan.imap_port, None);
}

#[test]
fn account_edits_are_refused_in_order() {
    let mut input = update_input("nobody");
    input.provider = Some("nowhere".to_string());
    assert_eq!(invalid(plan_account_update(&input).unwrap_err()), "account email is invalid");
    input.email = "a@b.c".to_string();
    input.proxy_url = Some("socks5://p".to_string());
    assert_eq!(
        invalid(plan_account_update(&input).unwrap_err()),
        "unsupported mail provider: nowhere"
    );
    input.provider = None;
    assert_eq!(
        invalid(plan_account_update(&input).unwrap_err()),
        "proxy URL must start with http:// or https://"
    );
    assert_eq!(
        invalid(checked_email(" x ", "account email is required").unwrap_err()),
        "account email is required"
    );
}

#[test]
fn oauth_saves_use_a_given_refresh_token() {
    let mut input = oauth_input(" Me@Outlook.com ", " client ");
    input.refresh_token = Some("  tok  ".to_string());
    input.code_or_url = Some("ignored".to_string());
    input.remark = Some("work".to_string());
    let plan = plan_oauth_save(&input).unwrap();
    assert_eq!(plan.email, "me@outlook.com");
    assert_eq!(plan.client_id, "client");
    assert_eq!(plan.provider, "graph");
    assert_eq!(plan.account_type, "outlook");
    assert_eq!(plan.remark, "work");
    assert!(matches!(plan.token, OAuthTokenSource::RefreshToken(ref t) if t == "tok"));
}

#[test]
fn oauth_saves_exchange_a_callback_otherwise() {
    let mut input = oauth_input("me@x.y", "client");
    input.provider = Some("IMAP".to_string());
    input.refresh_token = Some("   ".to_string());
    input.code_or_url = Some(" http://localhost/?code=abc ".to_string());
    let plan = plan_oauth_save(&input).unwrap();
    assert_eq!(plan.provider, "imap");
    assert_eq!(plan.account_type, "imap");
    assert_eq!(plan.remark, "");
    assert!(
        matches!(plan.token, OAuthTokenSource::Exchange(ref c) if c == " http://localhost/?code=abc ")
    );
}

#[test]
fn oauth_saves_are_refused_in_order() {
    assert_eq!(
        invalid(plan_oauth_save(&oauth_input("nobody", "")).unwrap_err()),
        "account email is required"
    );
    assert_eq!(
        invalid(plan_oauth_save(&oauth_input("a@b.c", " ")).unwrap_err()),
        "OAuth client id is required"
    );
    let mut gmail = oauth_input("a@b.c", "c");
    gmail.provider = Some("gmail".to_string());
    assert_eq!(
        invalid(plan_oauth_save(&gmail).unwrap_err()),
        "Gmail OAuth is disabled; use IMAP app password"
    );
    assert_eq!(
        invalid(plan_oauth_save(&oauth_input("a@b.c", "c")).unwrap_err()),
        "OAuth callback URL is required"
    );
    assert_eq!(accepted_refresh_token(" r1 ").unwrap(), " r1 ");
    assert_eq!(
        invalid(accepted_refresh_token("  ").unwrap_err()),
        "OAuth response did not include a refresh token"
    );
}

#[test]
fn batch_ids_are_positive_sorted_and_unique() {
    assert_eq!(batch_account_ids(&[5, -1, 3, 5, 0, 3, 9]).unwrap(), vec![3, 5, 9]);
    assert_eq!(invalid(batch_account_ids(&[0, -4]).unwrap_err()), "account_ids are required");
    assert_eq!(invalid(batch_account_ids(&[]).unwrap_err()), "account_ids are required");
}

#[test]
fn batch_actions_and_reports() {
    assert_eq!(batch_action(" delete ").unwrap(), BatchAction::Delete);
    assert_eq!(batch_action("move_group").unwrap(), BatchAction::MoveGroup);
    assert_eq!(invalid(batch_action("Delete").unwrap_err()), "unsupported batch action");
    let report = batch_result(" delete ", 2, 1);
    assert!(!report.success);
    assert_eq!(report.message, "Batch delete processed 2 account(s)");
    assert_eq!((report.refreshed, report.failed), (2, 1));
    assert!(batch_result("move_group", 3, 0).success);
}

#[test]
fn settings_and_refresh_sizes_are_clamped() {
    let s = normalize_settings(Settings {
        graph_client_id: "id".to_string(),
        oauth_redirect_uri: "uri".to_string(),
        scheduler_refresh_enabled: true,
        scheduler_refresh_interval_minutes: 0,
        scheduler_refresh_top: 5000,
    });
    assert_eq!(s.scheduler_refresh_interval_minutes, 1);
    assert_eq!(s.scheduler_refresh_top, 2000);
    assert_eq!(s.graph_client_id, "id");
    let again = normalize_settings(s.clone());
    assert_eq!(again.scheduler_refresh_interval_minutes, 1);
    assert_eq!(again.scheduler_refresh_top, 2000);
    assert_eq!(refresh_top_for_input(Some(0), 10), 2000);
    assert_eq!(refresh_top_for_input(Some(25), 10), 25);
    assert_eq!(refresh_top_for_input(Some(9000), 10), 2000);
    assert_eq!(refresh_top_for_input(None, 0), 1);
    assert_eq!(refresh_top_for_input(None, 75), 75);
}

#[test]
fn shares_and_secret_exports() {
    assert_eq!(share_title(Some("  Team  ")), "Team");
    assert_eq!(share_title(Some(" ")), "OutlookEmail local share");
    assert_eq!(share_title(None), "OutlookEmail local share");
    assert_eq!(share_expiry_days(None), 30);
    assert_eq!(share_expiry_days(Some(0)), 1);
    assert_eq!(share_expiry_days(Some(1000)), 365);
    assert_eq!(share_token_preview("abcdefghijk"), "abcdefgh");
    assert_eq!(share_token_preview("abc"), "abc");
    assert!(confirm_secret_export(" EXPORT ACCOUNT SECRETS ").is_ok());
    assert_eq!(
        invalid(confirm_secret_export("export account secrets").unwrap_err()),
        "type EXPORT ACCOUNT SECRETS to confirm secret export"
    );
    assert_eq!(selected_account_ids(&[4, 4, -1, 2]).unwrap(), vec![4, 2]);
    assert_eq!(
        invalid(selected_account_ids(&[0]).unwrap_err()),
        "select at least one account"
    );
}

#[test]
fn account_aliases_are_normalized_and_checked() {
    let s = |v: &[&str]| v.iter().map(|x| x.to_string()).collect::<Vec<String>>();
    let others = s(&["two@example.com"]);
    let taken = s(&["alias@two.com"]);
    assert_eq!(
        account_aliases(
            "one@example.com",
            &s(&["Alias@One.com", "alias-one@example.com", "ALIAS@ONE.COM"]),
            &others,
            &taken
        )
        .unwrap(),
        s(&["alias@one.com", "alias-one@example.com"])
    );
    assert_eq!(
        invalid(account_aliases("one@example.com", &s(&["two@example.com"]), &others, &taken).unwrap_err()),
        "account alias conflicts with another primary email"
    );
    assert_eq!(
        invalid(account_aliases("one@example.com", &s(&["Alias@Two.com"]), &others, &taken).unwrap_err()),
        "account alias conflicts with another account alias"
    );
    assert_eq!(
        invalid(account_aliases("one@example.com", &s(&[" ONE@example.com "]), &others, &taken).unwrap_err()),
        "account alias cannot equal the primary email"
    );
    assert_eq!(
        invalid(account_aliases("one@example.com", &s(&["a@b.c", "nope"]), &others, &taken).unwrap_err()),
        "account alias email is invalid"
    );
    assert_eq!(
        invalid(account_aliases("one@example.com", &s(&["two@example.com", "nope"]), &others, &taken).unwrap_err()),
        "account alias conflicts with another primary email"
    );
    assert!(account_aliases("one@example.com", &[], &others, &taken).unwrap().is_empty());
}
