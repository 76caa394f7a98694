use outlook_email::search::{
    append_mail_search_terms, mail_sort_clause, parse_mail_search, repeat_placeholders,
    tokenize_search, MailSearchTerm, ANY_CLAUSE,
};
use outlook_email::error::AppError;

#[test]
fn tokens_respect_quotes() {
    assert_eq!(
        tokenize_search("  subject:\"weekly report\" from:alice   hello "),
        vec!["subject:weekly report".to_string(), "from:alice".to_string(), "hello".to_string()]
    );
    assert_eq!(tokenize_search("\" \" x"), vec!["x".to_string()]);
    assert!(tokenize_search("   ").is_empty());
}

#[test]
fn search_fields_and_filters() {
    let parsed = parse_mail_search("sub:Invoice FROM:bob to:me body:\"big deal\" id:42 folder:Junk is:unread has:files plain has:maybe");
    assert_eq!(parsed.folder.as_deref(), Some("junkemail"));
    assert_eq!(parsed.read_state.as_deref(), Some("unread"));
    assert_eq!(parsed.has_attachments, Some(true));
    assert_eq!(parsed.terms.len(), 7);
    assert!(matches!(&parsed.terms[0], MailSearchTerm::Subject(v) if v == "Invoice"));
    assert!(matches!(&parsed.terms[1], MailSearchTerm::Sender(v) if v == "bob"));
    assert!(matches!(&parsed.terms[2], MailSearchTerm::Recipient(v) if v == "me"));
    assert!(matches!(&parsed.terms[3], MailSearchTerm::Body(v) if v == "big deal"));
    assert!(matches!(&parsed.terms[4], MailSearchTerm::ProviderId(v) if v == "42"));
    assert!(matches!(&parsed.terms[5], MailSearchTerm::Any(v) if v == "plain"));
    assert!(matches!(&parsed.terms[6], MailSearchTerm::Any(v) if v == "has:maybe"));
}

#[test]
fn malformed_field_tokens_search_everything() {
    let parsed = parse_mail_search(":x subject: unknown:y has:nofiles");
    assert_eq!(parsed.has_attachments, Some(false));
    assert_eq!(parsed.terms.len(), 3);
    assert!(matches!(&parsed.terms[0], MailSearchTerm::Any(v) if v == ":x"));
    assert!(matches!(&parsed.terms[1], MailSearchTerm::Any(v) if v == "subject:"));
    assert!(matches!(&parsed.terms[2], MailSearchTerm::Any(v) if v == "unknown:y"));
}

#[test]
fn search_terms_become_sql_conditions() {
    let mut sql = "SELECT 1 WHERE 1=1".to_string();
    let mut values: Vec<String> = Vec::new();
    append_mail_search_terms(
        &mut sql,
        &mut values,
        &[MailSearchTerm::Subject("a".to_string()), MailSearchTerm::Any("b".to_string())],
    );
    assert_eq!(sql, format!("SELECT 1 WHERE 1=1 AND m.subject LIKE ?{}", ANY_CLAUSE));
    assert_eq!(values.len(), 7);
    assert_eq!(values[0], "%a%");
    assert!(values[1..].iter().all(|v| v == "%b%"));
}

#[test]
fn placeholders_are_comma_separated() {
    assert_eq!(repeat_placeholders(0), "");
    assert_eq!(repeat_placeholders(1), "?");
    assert_eq!(repeat_placeholders(3), "?,?,?");
}

#[test]
fn sort_clauses() {
    assert_eq!(mail_sort_clause(None, None).expect("default"), "m.received_at_sort DESC, m.id DESC");
    assert_eq!(
        mail_sort_clause(Some(" Subject "), Some("ASC")).expect("subject"),
        "LOWER(m.subject) ASC, m.received_at_sort DESC, m.id DESC"
    );
    assert_eq!(
        mail_sort_clause(Some("files"), Some("")).expect("files"),
        "m.has_attachments DESC, m.received_at_sort DESC, m.id DESC"
    );
    match mail_sort_clause(Some("size"), None) {
        Err(AppError::InvalidInput(m)) => assert_eq!(m, "unsupported mail sort_by: size"),
        other => panic!("unexpected {:?}", other),
    }
    match mail_sort_clause(None, Some("UP")) {
        Err(AppError::InvalidInput(m)) => assert_eq!(m, "unsupported mail sort_order: up"),
        other => panic!("unexpected {:?}", other),
    }
}
