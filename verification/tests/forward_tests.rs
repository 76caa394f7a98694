use outlook_email::forward::{
    configured_forward_channels, fallback_subject, first_non_empty, render_forward_markdown,
    render_forward_text, smtp_path, split_recipients, trim_message, ForwardContent,
    ForwardSettings,
};

fn settings() -> ForwardSettings {
    ForwardSettings {
        forward_smtp_host: String::new(),
        forward_smtp_port: 587,
        forward_smtp_username: String::new(),
        forward_smtp_password: String::new(),
        forward_smtp_from: String::new(),
        forward_smtp_to: String::new(),
        forward_telegram_bot_token: String::new(),
        forward_telegram_chat_id: String::new(),
        forward_wecom_webhook: String::new(),
        webdav_url: String::new(),
        webdav_username: String::new(),
        webdav_password: String::new(),
    }
}

fn content(body: Option<&str>) -> ForwardContent {
    ForwardContent {
        account_email: "me@x.y".to_string(),
        message_id: "m1".to_string(),
        sender: "s@x.y".to_string(),
        received_at: "2024-01-01".to_string(),
        subject: "  ".to_string(),
        body: body.map(|b| b.to_string()),
        body_preview: "preview".to_string(),
    }
}

#[test]
fn channels_need_their_settings() {
    let mut s = settings();
    assert!(configured_forward_channels(&s).is_empty());
    s.forward_smtp_host = "smtp.x".to_string();
    assert!(configured_forward_channels(&s).is_empty());
    s.forward_smtp_to = "a@b.c".to_string();
    s.forward_telegram_bot_token = "t".to_string();
    s.forward_wecom_webhook = "https://hook".to_string();
    assert_eq!(configured_forward_channels(&s), vec!["smtp", "wecom"]);
    s.forward_telegram_chat_id = "c".to_string();
    assert_eq!(configured_forward_channels(&s), vec!["smtp", "telegram", "wecom"]);
}

#[test]
fn recipients_senders_and_subjects() {
    assert_eq!(
        split_recipients(" a@x.y, b@x.y;\n ; c@x.y "),
        vec!["a@x.y".to_string(), "b@x.y".to_string(), "c@x.y".to_string()]
    );
    assert!(split_recipients(" ,; ").is_empty());
    assert_eq!(first_non_empty(&["  ", " from@x.y ", "other"]), Some("from@x.y".to_string()));
    assert_eq!(first_non_empty(&["", " "]), None);
    assert_eq!(fallback_subject("   "), "(no subject)");
    assert_eq!(fallback_subject(" Hi "), "Hi");
    assert_eq!(smtp_path(" Alice <alice@x.y> "), "alice@x.y");
    assert_eq!(smtp_path("bob@x.y"), "bob@x.y");
    assert_eq!(smtp_path(">odd<"), ">odd<");
}

#[test]
fn forwarded_texts() {
    assert_eq!(
        render_forward_text(&content(Some("full body"))),
        "Account: me@x.y\nMessage ID: m1\nFrom: s@x.y\nReceived: 2024-01-01\nSubject: (no subject)\n\nfull body"
    );
    assert_eq!(
        render_forward_markdown(&content(Some("  "))),
        "**(no subject)**\n> Account: me@x.y\n> Message ID: m1\n> From: s@x.y\n> Received: 2024-01-01\n\npreview"
    );
}

#[test]
fn long_messages_are_trimmed() {
    assert_eq!(trim_message("short", 10), "short");
    let long = "x".repeat(30);
    let trimmed = trim_message(&long, 20);
    assert_eq!(trimmed, format!("{}\n...[trimmed]", "x".repeat(4)));
    assert_eq!(trim_message(&long, 5), "\n...[trimmed]");
}

#[test]
fn more_forward_fields_keep_the_channels_in_order() {
    let mut less = settings();
    less.forward_smtp_host = "  ".to_string();
    less.forward_telegram_bot_token = String::new();
    less.forward_wecom_webhook = "https://hook".to_string();
    let mut more = less.clone();
    more.forward_smtp_host = "smtp.example.com".to_string();
    more.forward_smtp_to = "to@example.com".to_string();
    assert_eq!(configured_forward_channels(&less), vec!["wecom"]);
    assert_eq!(configured_forward_channels(&more), vec!["smtp", "wecom"]);
}
