use outlook_email::error::AppError;
use outlook_email::forward::{
    all_proxies_failed, expect_smtp_reply, forward_channel, is_final_smtp_line,
    proxy_connect_request, proxy_connect_succeeded, smtp_auth_plain_command, smtp_data_payload,
    smtp_forward, telegram_forward, webdav_target, wecom_forward, ForwardChannel, ForwardContent,
    ForwardSettings, FORWARD_MESSAGE_LIMIT,
};

fn settings() -> ForwardSettings {
    ForwardSettings {
        forward_smtp_host: String::new(),
        forward_smtp_port: 587,
        forward_smtp_username: String::new(),
        forward_smtp_password: String::new(),
        forward_smtp_from: String::new(),
        forward_smtp_to: String::new(),
        forward_telegram_bot_token: String::new(),
        forward_telegram_chat_id: String::new(),
        forward_wecom_webhook: String::new(),
        webdav_url: String::new(),
        webdav_username: String::new(),
        webdav_password: String::new(),
    }
}

fn content(subject: &str, body: &str) -> ForwardContent {
    ForwardContent {
        account_email: "me@x.y".to_string(),
        message_id: "m1".to_string(),
        sender: "s@x.y".to_string(),
        received_at: "2024-01-01".to_string(),
        subject: subject.to_string(),
        body: Some(body.to_string()),
        body_preview: "preview".to_string(),
    }
}

fn invalid(err: AppError) -> String {
    match err {
        AppError::InvalidInput(m) => m,
        other => panic!("unexpected {:?}", other),
    }
}

fn internal(err: AppError) -> String {
    match err {
        AppError::Internal(m) => m,
        other => panic!("unexpected {:?}", other),
    }
}

#[test]
fn forward_channels_are_named_exactly() {
    assert_eq!(forward_channel("smtp").unwrap(), ForwardChannel::Smtp);
    assert_eq!(forward_channel("telegram").unwrap(), ForwardChannel::Telegram);
    assert_eq!(forward_channel("wecom").unwrap(), ForwardChannel::Wecom);
    assert_eq!(
        invalid(forward_channel(" SMTP").unwrap_err()),
        "unsupported forwarding channel:  SMTP"
    );
}

#[test]
fn telegram_forward_needs_token_and_chat() {
    let mut s = settings();
    s.forward_telegram_bot_token = " 123:abc ".to_string();
    assert_eq!(
        invalid(telegram_forward(&s, &content("Hi", "body")).unwrap_err()),
        "Telegram bot token and chat id are required"
    );
    s.forward_telegram_chat_id = " 42 ".to_string();
    let t = telegram_forward(&s, &content("Hi", "body")).unwrap();
    assert_eq!(t.url, "https://api.telegram.org/bot123:abc/sendMessage");
    assert_eq!(t.chat_id, "42");
    assert_eq!(
        t.text,
        "Account: me@x.y\nMessage ID: m1\nFrom: s@x.y\nReceived: 2024-01-01\nSubject: Hi\n\nbody"
    );
}

#[test]
fn long_forwards_are_trimmed_to_the_limit() {
    let mut s = settings();
    s.forward_wecom_webhook = " https://hook/x ".to_string();
    let long = "x".repeat(5000);
    let (hook, text) = wecom_forward(&s, &content("Hi", &long)).unwrap();
    assert_eq!(hook, "https://hook/x");
    assert_eq!(text.chars().count(), FORWARD_MESSAGE_LIMIT - 16 + "\n...[trimmed]".len());
    assert!(text.starts_with("**Hi**\n> Account: me@x.y"));
    assert!(text.ends_with("x\n...[trimmed]"));
    assert_eq!(
        invalid(wecom_forward(&settings(), &content("Hi", "b")).unwrap_err()),
        "WeCom webhook is required"
    );
}

#[test]
fn smtp_forward_settles_host_port_sender_and_subject() {
    let mut s = settings();
    assert_eq!(
        invalid(smtp_forward(&s, &content("Hi", "b")).unwrap_err()),
        "SMTP host and recipient are required"
    );
    s.forward_smtp_host = " smtp.x.y ".to_string();
    s.forward_smtp_to = "a@x.y; b@x.y".to_string();
    s.forward_smtp_port = 70000;
    s.forward_smtp_username = " user@x.y ".to_string();
    let f = smtp_forward(&s, &content("  ", "b")).unwrap();
    assert_eq!(f.host, "smtp.x.y");
    assert_eq!(f.port, 65535);
    assert_eq!(f.recipients, vec!["a@x.y".to_string(), "b@x.y".to_string()]);
    assert_eq!(f.from, "user@x.y");
    assert_eq!(f.subject, "Forwarded: (no subject)");
    s.forward_smtp_port = -3;
    s.forward_smtp_from = "from@x.y".to_string();
    let f = smtp_forward(&s, &content("Hi", "b")).unwrap();
    assert_eq!(f.port, 1);
    assert_eq!(f.from, "from@x.y");
    assert_eq!(f.subject, "Forwarded: Hi");
}

#[test]
fn smtp_replies_and_lines() {
    assert_eq!(expect_smtp_reply("250 OK\r\n", &["250", "251"]).unwrap(), "250 OK\r\n");
    assert_eq!(
        internal(expect_smtp_reply(" 550 no\r\n", &["250"]).unwrap_err()),
        "SMTP unexpected response: 550 no"
    );
    assert!(is_final_smtp_line("250 OK"));
    assert!(!is_final_smtp_line("250-SIZE"));
    assert!(!is_final_smtp_line("250"));
}

#[test]
fn smtp_data_is_crlf_terminated_and_dot_stuffed() {
    assert_eq!(smtp_data_payload("a\nb\r\n.c"), "a\r\nb\r\n..c\r\n.\r\n");
    assert_eq!(smtp_data_payload(""), "\r\n.\r\n");
    assert_eq!(smtp_data_payload("."), "..\r\n.\r\n");
}

#[test]
fn smtp_auth_and_proxy_handshakes() {
    assert_eq!(smtp_auth_plain_command(" user ", "pa ss"), "AUTH PLAIN AHVzZXIAcGEgc3M=\r\n");
    assert_eq!(
        proxy_connect_request("smtp.x.y", 465, "bob", "secret"),
        "CONNECT smtp.x.y:465 HTTP/1.1\r\nHost: smtp.x.y:465\r\nProxy-Connection: Keep-Alive\r\nProxy-Authorization: Basic Ym9iOnNlY3JldA==\r\n\r\n"
    );
    assert_eq!(
        proxy_connect_request("h", 25, "", "ignored"),
        "CONNECT h:25 HTTP/1.1\r\nHost: h:25\r\nProxy-Connection: Keep-Alive\r\n\r\n"
    );
    assert!(proxy_connect_succeeded("HTTP/1.1 200 Connection established"));
    assert!(!proxy_connect_succeeded("HTTP/1.1 407 Proxy Authentication Required"));
}

#[test]
fn webdav_targets_and_proxy_failures() {
    assert_eq!(
        webdav_target(" https://dav.x/backups// ", "backup 1.zip").unwrap(),
        "https://dav.x/backups/backup%201.zip"
    );
    assert_eq!(invalid(webdav_target("  ", "f").unwrap_err()), "WebDAV URL is required");
    assert_eq!(
        internal(all_proxies_failed("SMTP", "", "no proxy configured")),
        "all proxy attempts failed for SMTP: no proxy configured"
    );
    assert_eq!(
        internal(all_proxies_failed("SMTP", "timed out", "no proxy configured")),
        "all proxy attempts failed for SMTP: timed out"
    );
}
