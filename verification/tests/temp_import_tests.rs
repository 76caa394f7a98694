use outlook_email::error::AppError;
use outlook_email::temp_mail::{
    import_line_error, parse_temp_import_line, plan_temp_mailbox, temp_mail_provider,
    CloudflareChannelCredentials, GenerateTempEmailInput, TempImportLine, TempImportTally,
    TempMailService, TempMailboxPlan,
};

fn invalid(err: AppError) -> String {
    match err {
        AppError::InvalidInput(m) => m,
        other => panic!("unexpected {:?}", other),
    }
}

fn request(provider: &str) -> GenerateTempEmailInput {
    GenerateTempEmailInput {
        provider: provider.to_string(),
        base_url: None,
        api_key: None,
        prefix: None,
        domain: None,
        username: None,
        password: None,
        cloudflare_channel_id: None,
    }
}

fn channel() -> CloudflareChannelCredentials {
    CloudflareChannelCredentials {
        worker_url: "https://worker.x".to_string(),
        admin_password: "admin".to_string(),
        domains: vec!["Mail.Example.com".to_string()],
    }
}

#[test]
fn temp_mail_services_are_named_in_any_case() {
    assert_eq!(temp_mail_provider(" DuckMail ").unwrap(), TempMailService::DuckMail);
    assert_eq!(
        invalid(temp_mail_provider("mailtm").unwrap_err()),
        "provider must be gptmail, duckmail, or cloudflare"
    );
}

#[test]
fn gptmail_and_duckmail_plans() {
    let mut gpt = request("gptmail");
    gpt.base_url = Some(" https://gpt.x/ ".to_string());
    match plan_temp_mailbox(&gpt, None).unwrap() {
        TempMailboxPlan::GptMail { url, api_key, post, .. } => {
            assert_eq!(url, "https://gpt.x");
            assert_eq!(api_key, "gpt-test");
            assert!(!post);
        }
        other => panic!("unexpected {:?}", other),
    }
    gpt.prefix = Some("box".to_string());
    assert!(matches!(plan_temp_mailbox(&gpt, None).unwrap(), TempMailboxPlan::GptMail { post: true, .. }));

    let mut duck = request("duckmail");
    duck.username = Some(" bob ".to_string());
    duck.domain = Some("duck.x".to_string());
    duck.password = Some("12345".to_string());
    assert!(invalid(plan_temp_mailbox(&duck, None).unwrap_err()).starts_with("DuckMail requires"));
    duck.password = Some("123456".to_string());
    match plan_temp_mailbox(&duck, None).unwrap() {
        TempMailboxPlan::DuckMail { url, email, password, .. } => {
            assert_eq!(url, "https://api.duckmail.sbs");
            assert_eq!(email, "bob@duck.x");
            assert_eq!(password, "123456");
        }
        other => panic!("unexpected {:?}", other),
    }
}

#[test]
fn cloudflare_plans_check_channel_domain_and_name() {
    let mut cf = request("cloudflare");
    cf.domain = Some(" @MAIL.example.com ".to_string());
    assert_eq!(invalid(plan_temp_mailbox(&cf, None).unwrap_err()), "Cloudflare channel is required");
    let ch = channel();
    cf.username = Some(" ab ".to_string());
    assert_eq!(
        invalid(plan_temp_mailbox(&cf, Some(&ch)).unwrap_err()),
        "Cloudflare username must contain at least 3 characters"
    );
    cf.username = Some(" abc ".to_string());
    match plan_temp_mailbox(&cf, Some(&ch)).unwrap() {
        TempMailboxPlan::Cloudflare { username, domain } => {
            assert_eq!(username, "abc");
            assert_eq!(domain, "mail.example.com");
        }
        other => panic!("unexpected {:?}", other),
    }
    cf.username = None;
    match plan_temp_mailbox(&cf, Some(&ch)).unwrap() {
        TempMailboxPlan::Cloudflare { username, .. } => {
            assert_eq!(username.len(), 14);
            assert!(username.starts_with("mail"));
        }
        other => panic!("unexpected {:?}", other),
    }
    cf.domain = Some("other.com".to_string());
    assert_eq!(
        invalid(plan_temp_mailbox(&cf, Some(&ch)).unwrap_err()),
        "selected domain does not belong to this Cloudflare channel"
    );
}

#[test]
fn import_lines_per_service() {
    assert!(matches!(parse_temp_import_line(TempMailService::GptMail, "   "), TempImportLine::Blank));
    match parse_temp_import_line(TempMailService::GptMail, " a@x.y----ignored ") {
        TempImportLine::Entry { email, password } => {
            assert_eq!(email, "a@x.y----ignored");
            assert_eq!(password, "");
        }
        other => panic!("unexpected {:?}", other),
    }
    match parse_temp_import_line(TempMailService::DuckMail, "b@x.y ---- pw ----extra") {
        TempImportLine::Entry { email, password } => {
            assert_eq!(email, "b@x.y");
            assert_eq!(password, "pw");
        }
        other => panic!("unexpected {:?}", other),
    }
    assert!(matches!(
        parse_temp_import_line(TempMailService::DuckMail, "b@x.y---- "),
        TempImportLine::MissingPassword
    ));
    match parse_temp_import_line(TempMailService::Cloudflare, "c@x.y----note") {
        TempImportLine::Entry { email, .. } => assert_eq!(email, "c@x.y"),
        other => panic!("unexpected {:?}", other),
    }
}

#[test]
fn import_tally_counts_and_reports() {
    assert_eq!(import_line_error(0, "invalid email address"), "line 1: invalid email address");
    let mut tally = TempImportTally::new();
    tally.skip(2, Some("invalid email address"));
    tally.skip(3, None);
    tally.note(4, "channel not found");
    assert_eq!(tally.skipped, 2);
    assert_eq!(
        tally.errors,
        vec!["line 3: invalid email address".to_string(), "line 5: channel not found".to_string()]
    );
    assert_eq!(invalid(tally.outcome().unwrap_err()), "line 3: invalid email address");
    tally.stored(true);
    tally.stored(false);
    assert_eq!((tally.imported, tally.updated), (1, 1));
    assert!(tally.outcome().is_ok());
    assert_eq!(
        invalid(TempImportTally::new().outcome().unwrap_err()),
        "no valid temporary emails were found"
    );
}
