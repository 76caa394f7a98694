use outlook_email::crypto::{derive_key, encrypt_text, reencrypt_secret_value};
use outlook_email::error::AppError;
use outlook_email::providers::{graph_item_plan, graph_listing_brief, refresh_limit_of, GraphItemPlan};
use outlook_email::temp_mail::{cloudflare_item_id, cloudflare_item_raw, JsonField};

#[test]
fn worker_ids_and_raw_text_follow_the_field_order() {
    let text = |s: &str| JsonField::Text(s.to_string());
    assert_eq!(cloudflare_item_id(&text("abc"), &text("x")), Some("abc".to_string()));
    assert_eq!(cloudflare_item_id(&JsonField::Integer(-42), &text("x")), Some("-42".to_string()));
    assert_eq!(cloudflare_item_id(&JsonField::Missing, &JsonField::Integer(7)), Some("7".to_string()));
    assert_eq!(cloudflare_item_id(&JsonField::Other, &text("x")), Some(String::new()));
    assert_eq!(cloudflare_item_id(&JsonField::Missing, &JsonField::Missing), None);
    assert_eq!(cloudflare_item_raw(&JsonField::Missing, &text("r2"), &text("r3")), Some("r2".to_string()));
    assert_eq!(cloudflare_item_raw(&JsonField::Other, &text("r2"), &text("r3")), None);
    assert_eq!(cloudflare_item_raw(&JsonField::Missing, &JsonField::Missing, &text("r3")), Some("r3".to_string()));
}

#[test]
fn graph_listing_plans() {
    let cached = vec!["a".to_string()];
    assert!(graph_listing_brief(Some(&cached)));
    assert!(!graph_listing_brief(Some(&[])));
    assert!(!graph_listing_brief(None));
    assert_eq!(graph_item_plan(Some(&cached), "a"), GraphItemPlan::ReadStateOnly);
    assert_eq!(graph_item_plan(Some(&cached), "b"), GraphItemPlan::FetchFull);
    assert_eq!(graph_item_plan(None, "b"), GraphItemPlan::UseListed);
    assert_eq!((refresh_limit_of(0), refresh_limit_of(25), refresh_limit_of(5000)), (1, 25, 2000));
}

#[test]
fn reencryption_succeeds_or_reports_the_decryption_error() {
    let old_key = derive_key("old", "salt");
    let new_key = derive_key("new", "salt");
    let stored = encrypt_text("refresh-token", &old_key).unwrap();
    assert!(reencrypt_secret_value(&stored, &old_key, &new_key).is_ok());
    assert!(matches!(reencrypt_secret_value(&stored, &new_key, &old_key), Err(AppError::Crypto(_))));
    assert_eq!(reencrypt_secret_value("legacy-plain", &old_key, &new_key).map(|t| !t.is_empty()).ok(), Some(true));
}
