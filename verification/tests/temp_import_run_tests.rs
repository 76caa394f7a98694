use outlook_email::export::timestamped_file_name;
use outlook_email::temp_mail::{
    mailbox_name_from, require_import_text, TempImportAction, TempImportEvent, TempImportRun,
    TempMailService,
};

fn line(index: u64, text: &str) -> TempImportEvent {
    TempImportEvent::Line { index, text: text.to_string() }
}

#[test]
fn cloudflare_headers_switch_channels_and_need_a_worker() {
    let mut run = TempImportRun::start(TempMailService::Cloudflare, String::new(), Some(1));
    assert!(matches!(run.step(line(0, "   ")), TempImportAction::NextLine));
    match run.step(line(1, "[cloudflare:work]")) {
        TempImportAction::FindChannel(name) => assert_eq!(name, "work"),
        other => panic!("unexpected {:?}", other),
    }
    let found = TempImportEvent::ChannelFound { index: 1, found: Err("channel not found".to_string()) };
    assert!(matches!(run.step(found), TempImportAction::NextLine));
    assert_eq!(run.channel, None);
    assert!(matches!(run.step(line(2, "a@example.com")), TempImportAction::NextLine));
    assert_eq!(run.tally.skipped, 1);
    assert_eq!(
        run.tally.errors,
        vec!["line 2: channel not found".to_string(), "line 3: Cloudflare channel is required".to_string()]
    );
    assert!(matches!(run.step(line(3, "[cloudflare]")), TempImportAction::NextLine));
    assert_eq!(run.channel, Some(1));
    assert!(matches!(run.step(line(4, "b@example.com----x")), TempImportAction::FindWorker(1)));
    match run.step(TempImportEvent::WorkerFound(Ok("https://worker.example".to_string()))) {
        TempImportAction::Store { email, password, base_url, channel_id, with_api_key } => {
            assert_eq!((email.as_str(), password.as_str(), base_url.as_str()), ("b@example.com", "", "https://worker.example"));
            assert_eq!(channel_id, Some(1));
            assert!(!with_api_key);
        }
        other => panic!("unexpected {:?}", other),
    }
    assert!(matches!(run.step(line(5, "bad-address")), TempImportAction::FindWorker(1)));
    assert!(matches!(run.step(TempImportEvent::WorkerFound(Ok("u".to_string()))), TempImportAction::NextLine));
    assert_eq!(run.tally.errors.last().unwrap(), "line 6: invalid email address");
    assert!(matches!(run.step(line(6, "c@example.com")), TempImportAction::FindWorker(1)));
    assert!(matches!(run.step(TempImportEvent::WorkerFound(Err("worker gone".to_string()))), TempImportAction::NextLine));
    assert_eq!(run.tally.errors.last().unwrap(), "line 7: worker gone");
    assert_eq!(run.tally.skipped, 3);
}

#[test]
fn duckmail_lines_need_a_password() {
    let mut run = TempImportRun::start(TempMailService::DuckMail, "https://api.duck".to_string(), None);
    assert!(matches!(run.step(line(0, "user@duck.com")), TempImportAction::NextLine));
    assert_eq!((run.tally.skipped, run.tally.errors.len()), (1, 0));
    match run.step(line(1, "user@duck.com----secret----extra")) {
        TempImportAction::Store { email, password, base_url, channel_id, with_api_key } => {
            assert_eq!((email.as_str(), password.as_str(), base_url.as_str()), ("user@duck.com", "secret", "https://api.duck"));
            assert_eq!(channel_id, None);
            assert!(with_api_key);
        }
        other => panic!("unexpected {:?}", other),
    }
    assert_eq!(TempMailService::DuckMail.name(), "duckmail");
    assert!(require_import_text(" \n ").is_err());
    assert!(require_import_text("x").is_ok());
}

#[test]
fn mailbox_names_and_file_stamps() {
    assert_eq!(mailbox_name_from("0123456789abcdef0123456789abcdef"), "mail0123456789");
    let name = timestamped_file_name("accounts", ".csv");
    let stamp = &name["accounts-".len()..name.len() - ".csv".len()];
    assert_eq!(stamp.len(), 15);
    assert!(stamp.chars().enumerate().all(|(i, c)| if i == 8 { c == '-' } else { c.is_ascii_digit() }));
}
