use outlook_email::error::AppError;
use outlook_email::mime::{download_imap_attachment_from_raw, imap_message_content, received_time};
use outlook_email::temp_mail::{cloudflare_message, plan_temp_mailbox, GenerateTempEmailInput};

fn mixed() -> String {
    [
        "From: sender@example.com\r\n",
        "To: imap@example.com\r\n",
        "Subject: Attachment test\r\n",
        "MIME-Version: 1.0\r\n",
        "Content-Type: multipart/mixed; boundary=\"mix\"\r\n",
        "\r\n",
        "--mix\r\n",
        "Content-Type: text/plain; charset=utf-8\r\n",
        "\r\n",
        "Body\r\n",
        "--mix\r\n",
        "Content-Type: text/plain; name=\"note.txt\"\r\n",
        "Content-Disposition: attachment; filename=\"note.txt\"\r\n",
        "Content-Transfer-Encoding: base64\r\n",
        "\r\n",
        "SGVsbG8gSU1BUCBhdHRhY2htZW50\r\n",
        "--mix--\r\n",
    ]
    .concat()
}

#[test]
fn parse_imap_message_uses_seen_flag_from_fetch_meta() {
    let raw = [
        "Subject: Seen flag\r\n",
        "From: sender@example.com\r\n",
        "To: user@example.com\r\n",
        "Date: Tue, 07 Jul 2026 12:00:00 +0000\r\n",
        "Content-Type: text/plain; charset=utf-8\r\n",
        "\r\n",
        "Hello",
    ]
    .concat();
    let message = imap_message_content("inbox", 7, raw.as_bytes(), true);
    assert!(message.is_read);
    assert_eq!(message.subject, "Seen flag");
}

#[test]
fn imap_html_preview_strips_tags_and_keeps_html_body() {
    let raw = [
        "Subject: HTML preview\r\n",
        "From: sender@example.com\r\n",
        "To: user@example.com\r\n",
        "Date: Tue, 07 Jul 2026 12:00:00 +0000\r\n",
        "Content-Type: text/html; charset=utf-8\r\n",
        "\r\n",
        "<html><head><style>.x{display:none}</style></head>",
        "<body>.aw a {color: #FFFFFF; text-decoration: none;} ",
        "@font-face {font-family: Roboto; src: url(https://example.test/font.woff2);} ",
        "*{box-sizing:border-box}body{margin:0;padding:0}",
        "a[x-apple-data-detectors]{color:inherit!important;text-decoration:none}",
        "<p>Hello <strong>Gmail</strong><br>Code &amp; value</p></body></html>",
    ]
    .concat();
    let message = imap_message_content("inbox", 42, raw.as_bytes(), false);

    assert_eq!(message.body_type, "html");
    assert_eq!(message.body_preview, "Hello Gmail Code & value");
    assert!(message.body.contains("<strong>Gmail</strong>"));
}

#[test]
fn imap_messages_list_their_attachments() {
    let message = imap_message_content("inbox", 42, mixed().as_bytes(), false);
    assert_eq!(message.provider_message_id, "42");
    assert_eq!(message.subject, "Attachment test");
    assert_eq!(message.sender, "sender@example.com");
    assert_eq!(message.recipients, "imap@example.com");
    assert_eq!(message.body_type, "text");
    assert_eq!(message.body.trim_end(), "Body");
    assert!(message.has_attachments);
    assert_eq!(message.attachments.len(), 1);
    assert_eq!(message.attachments[0].id, "note.txt");
    assert_eq!(message.attachments[0].name, "note.txt");
    assert_eq!(message.attachments[0].content_type, "text/plain");
    assert_eq!(message.attachments[0].size, 21);
}

#[test]
fn cached_mime_yields_the_named_attachment() {
    let attachment = download_imap_attachment_from_raw(mixed().as_bytes(), " note.txt ").unwrap();
    assert_eq!(attachment.name, "note.txt");
    assert_eq!(attachment.content_type, "text/plain");
    assert_eq!(attachment.bytes, b"Hello IMAP attachment".to_vec());
    match download_imap_attachment_from_raw(mixed().as_bytes(), "other.txt") {
        Err(AppError::InvalidInput(m)) => assert_eq!(m, "attachment was not found in cached IMAP MIME"),
        other => panic!("unexpected {:?}", other.map(|a| a.name)),
    }
    match download_imap_attachment_from_raw(mixed().as_bytes(), "  ") {
        Err(AppError::InvalidInput(m)) => assert_eq!(m, "attachment id is required"),
        other => panic!("unexpected {:?}", other.map(|a| a.name)),
    }
}

#[test]
fn received_time_prefers_the_internal_date() {
    let (text, seconds) = received_time(Some(("2026-07-07T12:00:00+00:00".to_string(), 1_783_425_600)), "ignored");
    assert_eq!(text, "2026-07-07T12:00:00+00:00");
    assert_eq!(seconds, 1_783_425_600);
    let (text, seconds) = received_time(None, "Tue, 07 Jul 2026 12:00:00 +0000");
    assert_eq!(seconds, 1_783_425_600);
    assert_eq!(text, "2026-07-07T12:00:00+00:00");
}

#[test]
fn normalizes_cloudflare_raw_mime() {
    let raw = "From: Sender <sender@example.com>\r\nTo: box@example.test\r\nSubject: Cloudflare mail\r\nDate: Thu, 10 Jul 2026 10:00:00 +0000\r\nContent-Type: text/plain; charset=utf-8\r\n\r\nYour code is 654321";
    let message = cloudflare_message(raw, Some("42".to_string()), "box@example.test", true).expect("message");
    assert_eq!(message.id, "42");
    assert_eq!(message.subject, "Cloudflare mail");
    assert!(message.body.unwrap().contains("654321"));
}

#[test]
fn cloudflare_raw_mime_without_ids_uses_stable_hash() {
    let raw = "From: sender@example.com\r\nTo: box@example.test\r\nSubject: Stable\r\n\r\nBody";
    let first = cloudflare_message(raw, None, "box@example.test", false).expect("first");
    let second = cloudflare_message(raw, None, "box@example.test", true).expect("second");
    assert_eq!(first.id, second.id);
    assert!(first.id.starts_with("cf-"));
    assert_eq!(first.id.len(), 3 + 64);
    assert_eq!(first.body, None);
    assert_eq!(first.recipients, "box@example.test");
}

#[test]
fn rejects_incomplete_duckmail_account() {
    let result = plan_temp_mailbox(
        &GenerateTempEmailInput {
            provider: "duckmail".to_string(),
            base_url: None,
            api_key: None,
            prefix: None,
            domain: Some(String::new()),
            username: Some("ab".to_string()),
            password: Some("123".to_string()),
            cloudflare_channel_id: None,
        },
        None,
    );
    assert!(matches!(result, Err(AppError::InvalidInput(_))));
}
