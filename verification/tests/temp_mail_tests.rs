use outlook_email::error::AppError;
use outlook_email::temp_mail::{
    cloudflare_import_header, generated_mailbox_name, is_valid_email_address,
    normalize_batch_usernames, normalize_worker_url, normalized_url, split_domains,
};

fn message(err: AppError) -> String {
    match err {
        AppError::InvalidInput(m) => m,
        other => panic!("unexpected {:?}", other),
    }
}

#[test]
fn validates_cloudflare_batch_usernames_and_import_headers() {
    let usernames = normalize_batch_usernames(
        Some(vec!["Alpha".to_string(), "sales.ops@example.com".to_string()]),
        2,
    )
    .expect("usernames");
    assert_eq!(usernames, vec!["alpha", "salesops"]);
    assert!(normalize_batch_usernames(Some(vec!["only-one".to_string()]), 2).is_err());
    assert_eq!(cloudflare_import_header("[cloudflare:Primary]"), Some(Some("Primary".to_string())));
    assert_eq!(cloudflare_import_header("box@example.com"), None);
}

#[test]
fn batch_usernames_report_each_problem() {
    assert_eq!(
        message(normalize_batch_usernames(Some(vec!["a.b".to_string()]), 1).unwrap_err()),
        "invalid batch username: a.b"
    );
    assert_eq!(
        message(normalize_batch_usernames(Some(vec!["Bob1".to_string(), "bob-1".to_string()]), 2).unwrap_err()),
        "duplicate batch username: bob1"
    );
    assert_eq!(
        message(normalize_batch_usernames(Some(vec!["carol".to_string()]), 3).unwrap_err()),
        "username count must equal requested count (3)"
    );
    let long = "x".repeat(40);
    assert_eq!(normalize_batch_usernames(Some(vec![long]), 1).expect("long")[0].len(), 32);
}

#[test]
fn generated_usernames_when_none_are_given() {
    let names = normalize_batch_usernames(None, 3).expect("generated");
    assert_eq!(names.len(), 3);
    for name in &names {
        assert_eq!(name.len(), 14);
        assert!(name.starts_with("mail"));
        assert!(name[4..].chars().all(|c| c.is_ascii_hexdigit()));
    }
    assert_eq!(normalize_batch_usernames(Some(Vec::new()), 0).expect("empty").len(), 0);
    assert_eq!(generated_mailbox_name().len(), 14);
}

#[test]
fn import_headers() {
    assert_eq!(cloudflare_import_header(" [CloudFlare] "), Some(None));
    assert_eq!(cloudflare_import_header("[cloudflare: Team A ]"), Some(Some("Team A".to_string())));
    assert_eq!(cloudflare_import_header("[other:x]"), None);
    assert_eq!(cloudflare_import_header("[]"), None);
}

#[test]
fn addresses_domains_and_urls() {
    assert!(is_valid_email_address(" box@example.com "));
    assert!(!is_valid_email_address("a@b@c.d"));
    assert!(!is_valid_email_address("@example.com"));
    assert!(!is_valid_email_address("box@example"));
    assert!(!is_valid_email_address("bo x@example.com"));
    assert_eq!(split_domains(" a.com, ,b.org,"), vec!["a.com".to_string(), "b.org".to_string()]);
    assert_eq!(normalized_url(Some(" https://x.test// ".to_string()), "https://d"), "https://x.test");
    assert_eq!(normalized_url(None, "https://d/"), "https://d");
    assert_eq!(normalize_worker_url(" worker.example.dev/ ").expect("url"), "https://worker.example.dev");
    assert_eq!(normalize_worker_url("http://w.test").expect("url"), "http://w.test");
    assert_eq!(message(normalize_worker_url("https://").unwrap_err()), "Cloudflare Worker URL is invalid");
}
