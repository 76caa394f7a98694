use outlook_email::export::{
    crc32, csv_escape, csv_row, html_escape, push_u16, push_u32, render_mail_export_html_at,
    safe_file_name, sqlite_file_set, stamped_file_name, unique_bundle_file_name, zip_bundle_bytes,
    ExportMailMessageRow,
};
use outlook_email::error::AppError;
use outlook_email::html::decode_html_entities;
use outlook_email::models::AttachmentInfo;

#[test]
fn csv_fields_are_quoted_only_when_needed() {
    assert_eq!(csv_escape("plain"), "plain");
    assert_eq!(csv_escape("a,b"), "\"a,b\"");
    assert_eq!(csv_escape("say \"hi\""), "\"say \"\"hi\"\"\"");
    assert_eq!(csv_escape("line\nbreak"), "\"line\nbreak\"");
    assert_eq!(csv_row(&["id", "a,b", ""]), "id,\"a,b\",\n");
    assert_eq!(csv_row(&[]), "\n");
}

#[test]
fn html_escape_covers_the_five_characters() {
    assert_eq!(html_escape("<a href=\"x\">Tom & 'Jerry'</a>"), "&lt;a href=&quot;x&quot;&gt;Tom &amp; &#39;Jerry&#39;&lt;/a&gt;");
    assert_eq!(html_escape("plain 文本"), "plain 文本");
}

#[test]
fn file_names_are_made_safe() {
    assert_eq!(safe_file_name("  re: report/2024?.pdf "), "re_ report_2024_.pdf");
    assert_eq!(safe_file_name("\t"), "_");
    assert_eq!(safe_file_name("   "), "attachment.bin");
    assert_eq!(safe_file_name("a\u{7}b"), "a_b");
}

#[test]
fn bundle_names_get_counters_when_taken() {
    let mut used: Vec<String> = Vec::new();
    assert_eq!(unique_bundle_file_name(&mut used, "report.pdf"), "report.pdf");
    assert_eq!(unique_bundle_file_name(&mut used, "report.pdf"), "report-2.pdf");
    assert_eq!(unique_bundle_file_name(&mut used, "report.pdf"), "report-3.pdf");
    assert_eq!(unique_bundle_file_name(&mut used, ".env"), ".env");
    assert_eq!(unique_bundle_file_name(&mut used, ".env"), ".env-2");
    assert_eq!(unique_bundle_file_name(&mut used, "a.tar.gz"), "a.tar.gz");
    assert_eq!(unique_bundle_file_name(&mut used, "a.tar.gz"), "a.tar-2.gz");
    assert_eq!(used.len(), 7);
}

#[test]
fn stamped_names_and_sqlite_files() {
    assert_eq!(stamped_file_name("mail export", "20240101-000000", ".html"), "mail export-20240101-000000.html");
    assert_eq!(stamped_file_name("a/b", "S", "..csv"), "a_b-S.csv");
    assert_eq!(
        sqlite_file_set("/data/app.sqlite"),
        vec![
            "/data/app.sqlite".to_string(),
            "/data/app.sqlite-wal".to_string(),
            "/data/app.sqlite-shm".to_string()
        ]
    );
}

#[test]
fn crc32_matches_the_standard_check_value() {
    assert_eq!(crc32(b"123456789"), 0xCBF4_3926);
    assert_eq!(crc32(b""), 0);
    assert_eq!(crc32(b"a"), 0xE8B7_BE43);
}

#[test]
fn little_endian_fields() {
    let mut v = Vec::new();
    push_u16(&mut v, 0x0201);
    push_u32(&mut v, 0x0605_0403);
    assert_eq!(v, vec![1, 2, 3, 4, 5, 6]);
}

#[test]
fn zip_bundle_layout() {
    let files = vec![("a.txt".to_string(), b"hi".to_vec())];
    let data = zip_bundle_bytes(&files).expect("zip");
    assert_eq!(data.len(), 30 + 5 + 2 + 46 + 5 + 22);
    assert_eq!(&data[0..4], &[0x50, 0x4b, 0x03, 0x04]);
    assert_eq!(&data[30..35], b"a.txt");
    assert_eq!(&data[35..37], b"hi");
    let crc = crc32(b"hi").to_le_bytes();
    assert_eq!(&data[14..18], &crc);
    assert_eq!(&data[37..41], &[0x50, 0x4b, 0x01, 0x02]);
    let end = data.len() - 22;
    assert_eq!(&data[end..end + 4], &[0x50, 0x4b, 0x05, 0x06]);
    assert_eq!(&data[end + 8..end + 10], &[1, 0]);
    assert_eq!(&data[end + 12..end + 16], &[51, 0, 0, 0]);
    assert_eq!(&data[end + 16..end + 20], &[37, 0, 0, 0]);
}

#[test]
fn zip_bundle_needs_files() {
    match zip_bundle_bytes(&[]) {
        Err(AppError::InvalidInput(message)) => assert_eq!(message, "zip bundle requires at least one file"),
        other => panic!("unexpected {:?}", other),
    }
}

#[test]
fn zip_bundle_rejects_long_names() {
    let name = "n".repeat(70_000);
    match zip_bundle_bytes(&[(name, vec![1])]) {
        Err(AppError::InvalidInput(message)) => assert_eq!(message, "zip file name is too long"),
        other => panic!("unexpected {:?}", other.map(|v| v.len())),
    }
}

#[test]
fn export_page_lists_messages() {
    let row = ExportMailMessageRow {
        id: 12,
        account_id: 1,
        account_email: "me@x.y".to_string(),
        folder: "inbox".to_string(),
        provider_message_id: "p-1".to_string(),
        subject: String::new(),
        sender: "A <a@x.y>".to_string(),
        recipients: "me@x.y".to_string(),
        cc: String::new(),
        received_at: "2024-01-01".to_string(),
        is_read: true,
        body_preview: "hello".to_string(),
        body: None,
        body_type: "text".to_string(),
        attachments: vec![AttachmentInfo {
            id: "1".to_string(),
            name: "f.txt".to_string(),
            content_type: "text/plain".to_string(),
            size: 3,
        }],
    };
    let html = render_mail_export_html_at("Export <1>", &[row], "NOW");
    assert!(html.starts_with("<!doctype html><html><head><meta charset=\"utf-8\"><title>Export &lt;1&gt;</title><style>body{"));
    assert!(html.contains("<h1>Export &lt;1&gt;</h1><div class=\"summary\">Exported 1 message(s) at NOW</div>"));
    assert!(html.contains("<article><h2>(no subject)</h2><div class=\"meta\"><span>Local ID</span><strong>12</strong>"));
    assert!(html.contains("<span>From</span><strong>A &lt;a@x.y&gt;</strong>"));
    assert!(html.contains("<span>Status</span><strong>Read</strong>"));
    assert!(html.contains("</div><pre>hello</pre><h3>Attachments</h3><ul><li>f.txt (text/plain, 3 bytes)</li></ul></article></body></html>"));
}

#[test]
fn decoding_an_escaped_text_gives_it_back() {
    let text = "a < b && c > \"d\" 'e' &amp; 猫";
    let escaped: Vec<char> = html_escape(text).chars().collect();
    let decoded: String = decode_html_entities(&escaped).into_iter().collect();
    assert_eq!(decoded, text);
}
