use outlook_email::import::{parse_accounts, plan_account_import};

#[test]
fn parses_legacy_outlook_format() {
    let rows = parse_accounts("user@example.com----pass----cid----rt----primary");
    assert_eq!(rows.len(), 1);
    assert_eq!(rows[0].email, "user@example.com");
    assert_eq!(rows[0].refresh_token, "rt");
    assert_eq!(rows[0].provider, None);
}

#[test]
fn parses_explicit_provider_and_domain_detection_inputs() {
    let rows = parse_accounts(
        "provider=qq----user@example.com----auth\nnetease_163----mail@custom.test----secret\nperson@gmail.com",
    );
    assert_eq!(rows.len(), 3);
    assert_eq!(rows[0].provider.as_deref(), Some("qq"));
    assert_eq!(rows[1].provider.as_deref(), Some("netease_163"));
    assert_eq!(rows[2].email, "person@gmail.com");
}

#[test]
fn explicit_provider_takes_priority_over_positional_provider_token() {
    let rows = parse_accounts("provider=gmail----qq----user@example.com----secret");
    assert_eq!(rows.len(), 1);
    assert_eq!(rows[0].email, "user@example.com");
    assert_eq!(rows[0].password, "secret");
    assert_eq!(rows[0].provider.as_deref(), Some("gmail"));
}

#[test]
fn import_keeps_every_field_of_a_full_line() {
    let rows = parse_accounts("  a@b.com|||pw|||client|||token|||note  \n\n");
    assert_eq!(rows.len(), 1);
    assert_eq!(rows[0].email, "a@b.com");
    assert_eq!(rows[0].password, "pw");
    assert_eq!(rows[0].client_id, "client");
    assert_eq!(rows[0].refresh_token, "token");
    assert_eq!(rows[0].remark, "note");
}

#[test]
fn import_skips_lines_without_an_address() {
    let rows = parse_accounts("no address here\n# comment\nx@y.z,secret");
    assert_eq!(rows.len(), 1);
    assert_eq!(rows[0].email, "x@y.z");
    assert_eq!(rows[0].password, "secret");
}

#[test]
fn imported_accounts_store_the_secret_their_provider_uses() {
    let rows = parse_accounts(
        "user@outlook.com----pass----cid----rt\nprovider=qq----user@example.com----auth\nplain@outlook.com----pw----cid----  ",
    );
    assert_eq!(rows.len(), 3);
    let (graph, secret) = plan_account_import(&rows[0]).unwrap();
    assert_eq!(graph.id, "graph");
    assert_eq!(secret, "rt");
    let (qq, secret) = plan_account_import(&rows[1]).unwrap();
    assert_eq!(qq.id, "qq");
    assert!(qq.credential_kind.starts_with("imap"));
    assert_eq!(secret, rows[1].password);
    let (_, secret) = plan_account_import(&rows[2]).unwrap();
    assert_eq!(secret, "pw");
}

#[test]
fn joined_import_texts_parse_line_by_line() {
    let a = "one@outlook.com----p1----c1----r1\r";
    let b = "# note\nprovider=qq----two@qq.com----auth";
    let joined = parse_accounts(&format!("{a}\n{b}"));
    let mut apart = parse_accounts(a);
    apart.extend(parse_accounts(b));
    assert_eq!(joined.len(), 2);
    assert_eq!(joined.len(), apart.len());
    for (x, y) in joined.iter().zip(apart.iter()) {
        assert_eq!((&x.email, &x.password, &x.refresh_token, &x.provider), (&y.email, &y.password, &y.refresh_token, &y.provider));
    }
    assert_eq!(joined[0].email, "one@outlook.com");
}

#[test]
fn every_imported_email_keeps_its_at_sign() {
    let rows = parse_accounts("ÜSER@Exämple.com----pw\nplain line\nX@Y.Z");
    assert_eq!(rows.len(), 2);
    assert!(rows.iter().all(|r| r.email.contains('@')));
    assert_eq!(rows[1].email, "x@y.z");
}
