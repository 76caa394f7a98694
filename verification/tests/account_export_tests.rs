use outlook_email::crypto::{derive_key, encrypt_text};
use outlook_email::error::AppError;
use outlook_email::export::{account_in_export, account_secrets_csv, accounts_csv, AccountSecretRow};
use outlook_email::models::{Account, ExportAccountsInput};

fn account(id: i64, email: &str, group_id: Option<i64>) -> Account {
    Account {
        id,
        email: email.to_string(),
        group_id,
        group_name: group_id.map(|g| format!("Group {g}")),
        remark: "note, with comma".to_string(),
        status: "active".to_string(),
        provider: "graph".to_string(),
        account_type: "outlook".to_string(),
        last_refresh_status: "ok".to_string(),
        last_refresh_error: None,
        last_refresh_at: None,
        message_count: 12,
        created_at: "2024-01-01".to_string(),
        updated_at: "2024-01-02".to_string(),
        aliases: vec!["a1@x.y".to_string(), "a2@x.y".to_string()],
        has_client_id: true,
        has_refresh_token: true,
        imap_host: String::new(),
        imap_port: 993,
        proxy_url: String::new(),
        fallback_proxy_url_1: String::new(),
        fallback_proxy_url_2: String::new(),
        mail_retention_days: 30,
    }
}

fn row(id: i64, email: &str, client_id_enc: String, refresh_token_enc: String) -> AccountSecretRow {
    AccountSecretRow {
        id,
        email: email.to_string(),
        provider: "graph".to_string(),
        account_type: "outlook".to_string(),
        remark: String::new(),
        imap_host: String::new(),
        imap_port: 993,
        client_id_enc,
        refresh_token_enc,
    }
}

#[test]
fn accounts_export_selects_by_group_and_ids() {
    let a = account(1, "a@x.y", Some(2));
    let b = account(2, "b@x.y", None);
    let all = ExportAccountsInput { group_id: None, account_ids: None };
    assert!(account_in_export(&a, &all) && account_in_export(&b, &all));
    let group = ExportAccountsInput { group_id: Some(2), account_ids: None };
    assert!(account_in_export(&a, &group) && !account_in_export(&b, &group));
    let ids = ExportAccountsInput { group_id: None, account_ids: Some(vec![2, 7]) };
    assert!(!account_in_export(&a, &ids) && account_in_export(&b, &ids));
    let both = ExportAccountsInput { group_id: Some(2), account_ids: Some(vec![2]) };
    assert!(!account_in_export(&a, &both) && !account_in_export(&b, &both));
}

#[test]
fn accounts_export_csv_lines() {
    let csv = accounts_csv(&[account(-3, "a@x.y", Some(2))]);
    assert_eq!(
        csv,
        "id,email,aliases,group,remark,status,provider,account_type,proxy_url,fallback_proxy_url_1,fallback_proxy_url_2,message_count,last_refresh_status,created_at,updated_at\n\
         -3,a@x.y,a1@x.y; a2@x.y,Group 2,\"note, with comma\",active,graph,outlook,,,,12,ok,2024-01-01,2024-01-02\n"
    );
    assert_eq!(accounts_csv(&[]).lines().count(), 1);
}

#[test]
fn secrets_export_decrypts_each_row() {
    let key = derive_key("pw", "salt");
    let rows = vec![
        row(1, "a@x.y", encrypt_text("client-1", &key).unwrap(), encrypt_text("token-1", &key).unwrap()),
        row(2, "b@x.y", "plain-client".to_string(), String::new()),
    ];
    let csv = account_secrets_csv(&rows, &key).expect("nonces").expect("csv");
    assert_eq!(
        csv,
        "id,email,provider,account_type,remark,imap_host,imap_port,client_id,refresh_token\n\
         1,a@x.y,graph,outlook,,,993,client-1,token-1\n\
         2,b@x.y,graph,outlook,,,993,plain-client,\n"
    );
}

#[test]
fn secrets_export_failures() {
    let key = derive_key("pw", "salt");
    match account_secrets_csv(&[], &key) {
        Some(Err(AppError::InvalidInput(m))) => assert_eq!(m, "no matching accounts found"),
        other => panic!("unexpected {:?}", other),
    }
    let other_key = derive_key("pw", "pepper");
    let sealed = encrypt_text("client", &other_key).unwrap();
    match account_secrets_csv(&[row(1, "a@x.y", sealed, String::new())], &key) {
        Some(Err(AppError::Crypto(_))) => {}
        other => panic!("unexpected {:?}", other),
    }
    match account_secrets_csv(&[row(1, "a@x.y", "v1:AAAA:AAAA".to_string(), String::new())], &key) {
        None => {}
        other => panic!("unexpected {:?}", other),
    }
}
