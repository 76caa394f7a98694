//! Bringing an existing database up to the current schema: the columns a
//! table still lacks, and the indexes, tables, columns and settings that the
//! current schema has retired.
use crate::providers::views_s;
use crate::text::{append_str, chars_of, eq_str, string_of};
use vstd::prelude::*;

verus! {

broadcast use vstd::string::group_string_axioms;

/// `name` is one of `columns`.
fn has_column(columns: &[String], name: &str) -> (r: bool)
    ensures
        r == views_s(columns@).contains(name@),
{
    let mut i: usize = 0;
    while i < columns.len()
        invariant
            0 <= i <= columns.len(),
            forall|k: int| 0 <= k < i ==> views_s(columns@)[k] != name@,
        decreases columns.len() - i,
    {
        let c = chars_of(columns[i].as_str());
        if eq_str(&c, name) {
            assert(views_s(columns@)[i as int] == name@);
            return true;
        }
        i = i + 1;
    }
    false
}

/// The statements, in order, that add the wanted columns (name, statement)
/// a table does not have yet.
pub open spec fn missing_column_ddl(present: Seq<Seq<char>>, wanted: Seq<(Seq<char>, Seq<char>)>) -> Seq<
    Seq<char>,
>
    decreases wanted.len(),
{
    if wanted.len() == 0 {
        Seq::empty()
    } else {
        let rest = missing_column_ddl(present, wanted.drop_last());
        if present.contains(wanted.last().0) {
            rest
        } else {
            rest.push(wanted.last().1)
        }
    }
}

pub open spec fn pair_views(wanted: Seq<(&str, &str)>) -> Seq<(Seq<char>, Seq<char>)> {
    wanted.map_values(|p: (&str, &str)| (p.0@, p.1@))
}

/// The statements that add the columns of `wanted` (name, statement) that
/// are not among a table's `present` columns.
pub fn columns_to_add(present: &[String], wanted: &[(&str, &str)]) -> (r: Vec<String>)
    ensures
        views_s(r@) == missing_column_ddl(views_s(present@), pair_views(wanted@)),
{
    let mut out: Vec<String> = Vec::new();
    let mut i: usize = 0;
    while i < wanted.len()
        invariant
            0 <= i <= wanted.len(),
            views_s(out@) == missing_column_ddl(
                views_s(present@),
                pair_views(wanted@).take(i as int),
            ),
        decreases wanted.len() - i,
    {
        let ghost t = pair_views(wanted@).take(i + 1);
        assert(t.drop_last() =~= pair_views(wanted@).take(i as int));
        let (name, ddl) = wanted[i];
        if !has_column(present, name) {
            let ghost before = views_s(out@);
            out.push(ddl.to_string());
            assert(views_s(out@) =~= before.push(ddl@));
        }
        i = i + 1;
    }
    assert(pair_views(wanted@).take(wanted.len() as int) =~= pair_views(wanted@));
    out
}

// ---------------------------------------------------------------------------
// Retired schema
// ---------------------------------------------------------------------------

pub open spec fn legacy_indexes() -> Seq<Seq<char>> {
    seq![
        "idx_temp_messages_email"@,
        "idx_project_accounts_project_status"@,
        "idx_project_events_project_created"@,
        "idx_forwarding_logs_message"@,
        "idx_backup_logs_created"@,
        "idx_automation_runs_created"@,
        "idx_retry_queue_status_due"@,
        "idx_retry_queue_key"@,
    ]
}

pub open spec fn legacy_tables() -> Seq<Seq<char>> {
    seq![
        "account_tags"@,
        "tags"@,
        "project_account_events"@,
        "project_accounts"@,
        "project_group_scopes"@,
        "project_tag_scopes"@,
        "projects"@,
        "retry_queue"@,
        "automation_runs"@,
        "forwarding_logs"@,
        "backup_logs"@,
        "refresh_logs"@,
    ]
}

pub open spec fn legacy_account_columns() -> Seq<Seq<char>> {
    seq!["forward_enabled"@, "forward_last_checked_at"@]
}

pub open spec fn legacy_group_columns() -> Seq<Seq<char>> {
    seq!["color"@, "proxy_url"@, "fallback_proxy_url_1"@, "fallback_proxy_url_2"@]
}

pub open spec fn legacy_config_keys() -> Seq<Seq<char>> {
    seq![
        "webdav_url"@,
        "webdav_username"@,
        "webdav_password"@,
        "forward_smtp_host"@,
        "forward_smtp_port"@,
        "forward_smtp_username"@,
        "forward_smtp_password"@,
        "forward_smtp_from"@,
        "forward_smtp_to"@,
        "forward_telegram_bot_token"@,
        "forward_telegram_chat_id"@,
        "forward_wecom_webhook"@,
        "appearance_theme"@,
        "accent_color"@,
        "scheduler_last_forwarding_at"@,
        "scheduler_last_backup_at"@,
    ]
}

/// Each name with `prefix` before it.
pub open spec fn prefixed(prefix: Seq<char>, names: Seq<Seq<char>>) -> Seq<Seq<char>> {
    names.map_values(|n: Seq<char>| prefix + n)
}

/// The statements that drop those `retired` columns of `table` that are
/// among its `present` columns, in the order of `retired`.
pub open spec fn column_drops(table: Seq<char>, retired: Seq<Seq<char>>, present: Seq<Seq<char>>) -> Seq<
    Seq<char>,
>
    decreases retired.len(),
{
    if retired.len() == 0 {
        Seq::empty()
    } else {
        let rest = column_drops(table, retired.drop_last(), present);
        if present.contains(retired.last()) {
            rest.push("ALTER TABLE "@ + table + " DROP COLUMN "@ + retired.last())
        } else {
            rest
        }
    }
}

/// The statements that retire the old schema from a database whose
/// `accounts` and `groups` tables have the given columns: every retired
/// index and table is dropped if it exists, then each retired column that is
/// still there.
pub open spec fn legacy_cleanup(account_columns: Seq<Seq<char>>, group_columns: Seq<Seq<char>>) -> Seq<
    Seq<char>,
> {
    prefixed("DROP INDEX IF EXISTS "@, legacy_indexes()) + prefixed(
        "DROP TABLE IF EXISTS "@,
        legacy_tables(),
    ) + column_drops("accounts"@, legacy_account_columns(), account_columns) + column_drops(
        "groups"@,
        legacy_group_columns(),
        group_columns,
    )
}

/// No statement drops a retired column that a table no longer has.
proof fn lemma_no_drops_without_retired(table: Seq<char>, retired: Seq<Seq<char>>, present: Seq<Seq<char>>)
    requires
        forall|c: Seq<char>| retired.contains(c) ==> !present.contains(c),
    ensures
        column_drops(table, retired, present) == Seq::<Seq<char>>::empty(),
    decreases retired.len(),
{
    if retired.len() > 0 {
        assert(retired.contains(retired.last()));
        assert forall|c: Seq<char>| retired.drop_last().contains(c) implies !present.contains(c) by {
            let k = choose|k: int| 0 <= k < retired.drop_last().len() && retired.drop_last()[k] == c;
            assert(retired[k] == c);
        }
        lemma_no_drops_without_retired(table, retired.drop_last(), present);
    }
}

/// Retiring the old schema a second time drops no column: once the tables
/// have none of the retired columns, the plan holds only the drops of the
/// retired indexes and tables, each guarded by `IF EXISTS`.
pub proof fn law_legacy_cleanup_settles(account_columns: Seq<Seq<char>>, group_columns: Seq<Seq<char>>)
    requires
        forall|c: Seq<char>| legacy_account_columns().contains(c) ==> !account_columns.contains(c),
        forall|c: Seq<char>| legacy_group_columns().contains(c) ==> !group_columns.contains(c),
    ensures
        legacy_cleanup(account_columns, group_columns) == prefixed(
            "DROP INDEX IF EXISTS "@,
            legacy_indexes(),
        ) + prefixed("DROP TABLE IF EXISTS "@, legacy_tables()),
{
    lemma_no_drops_without_retired("accounts"@, legacy_account_columns(), account_columns);
    lemma_no_drops_without_retired("groups"@, legacy_group_columns(), group_columns);
    assert(legacy_cleanup(account_columns, group_columns) =~= prefixed(
        "DROP INDEX IF EXISTS "@,
        legacy_indexes(),
    ) + prefixed("DROP TABLE IF EXISTS "@, legacy_tables()));
}

/// The columns a table keeps once its retired columns are dropped.
pub open spec fn columns_left(present: Seq<Seq<char>>, retired: Seq<Seq<char>>) -> Seq<Seq<char>> {
    present.filter(|c: Seq<char>| !retired.contains(c))
}

/// Pruning the old schema twice does no more than pruning once: on the
/// tables the first pruning leaves, a second plan drops no column and only
/// repeats the `IF EXISTS` drops of indexes and tables, which find nothing.
pub proof fn law_pruning_twice_changes_nothing(account_columns: Seq<Seq<char>>, group_columns: Seq<Seq<char>>)
    ensures
        legacy_cleanup(
            columns_left(account_columns, legacy_account_columns()),
            columns_left(group_columns, legacy_group_columns()),
        ) == prefixed("DROP INDEX IF EXISTS "@, legacy_indexes()) + prefixed(
            "DROP TABLE IF EXISTS "@,
            legacy_tables(),
        ),
{
    let a = columns_left(account_columns, legacy_account_columns());
    let g = columns_left(group_columns, legacy_group_columns());
    assert forall|c: Seq<char>| legacy_account_columns().contains(c) implies !a.contains(c) by {
        if a.contains(c) {
            account_columns.lemma_filter_contains_rev(
                |x: Seq<char>| !legacy_account_columns().contains(x),
                c,
            );
        }
    }
    assert forall|c: Seq<char>| legacy_group_columns().contains(c) implies !g.contains(c) by {
        if g.contains(c) {
            group_columns.lemma_filter_contains_rev(
                |x: Seq<char>| !legacy_group_columns().contains(x),
                c,
            );
        }
    }
    law_legacy_cleanup_settles(a, g);
}

/// What retiring the old schema does: the statements to run, and the
/// settings to delete.
pub struct LegacySchemaPlan {
    pub statements: Vec<String>,
    pub config_keys: Vec<String>,
}

fn push_prefixed(out: &mut Vec<String>, prefix: &str, name: &str)
    ensures
        views_s(final(out)@) == views_s(old(out)@).push(prefix@ + name@),
{
    let mut s = chars_of(prefix);
    append_str(&mut s, name);
    out.push(string_of(&s));
    assert(views_s(final(out)@) =~= views_s(old(out)@).push(prefix@ + name@));
}

fn push_all(out: &mut Vec<String>, prefix: &str, names: &Vec<&str>)
    ensures
        views_s(final(out)@) == views_s(old(out)@) + prefixed(
            prefix@,
            names@.map_values(|n: &str| n@),
        ),
{
    let ghost start = views_s(out@);
    let mut i: usize = 0;
    while i < names.len()
        invariant
            0 <= i <= names.len(),
            views_s(out@) == start + prefixed(prefix@, names@.map_values(|n: &str| n@).take(i as int)),
        decreases names.len() - i,
    {
        push_prefixed(out, prefix, names[i]);
        assert(prefixed(prefix@, names@.map_values(|n: &str| n@).take(i + 1)) =~= prefixed(
            prefix@,
            names@.map_values(|n: &str| n@).take(i as int),
        ).push(prefix@ + names[i as int]@));
        i = i + 1;
    }
    assert(names@.map_values(|n: &str| n@).take(names.len() as int) =~= names@.map_values(
        |n: &str| n@,
    ));
}

fn push_column_drops(out: &mut Vec<String>, table: &str, retired: &Vec<&str>, present: &[String])
    ensures
        views_s(final(out)@) == views_s(old(out)@) + column_drops(
            table@,
            retired@.map_values(|n: &str| n@),
            views_s(present@),
        ),
{
    let ghost start = views_s(out@);
    let ghost names = retired@.map_values(|n: &str| n@);
    let mut i: usize = 0;
    while i < retired.len()
        invariant
            0 <= i <= retired.len(),
            names == retired@.map_values(|n: &str| n@),
            views_s(out@) == start + column_drops(table@, names.take(i as int), views_s(present@)),
        decreases retired.len() - i,
    {
        assert(names.take(i + 1).drop_last() =~= names.take(i as int));
        let column = retired[i];
        if has_column(present, column) {
            let mut s = chars_of("ALTER TABLE ");
            append_str(&mut s, table);
            append_str(&mut s, " DROP COLUMN ");
            append_str(&mut s, column);
            let ghost before = views_s(out@);
            out.push(string_of(&s));
            assert(views_s(out@) =~= before.push(s@));
        }
        i = i + 1;
    }
    assert(names.take(retired.len() as int) =~= names);
}

fn legacy_index_names() -> (r: Vec<&'static str>)
    ensures
        r@.map_values(|n: &str| n@) == legacy_indexes(),
{
    let mut v: Vec<&'static str> = Vec::new();
    v.push("idx_temp_messages_email");
    v.push("idx_project_accounts_project_status");
    v.push("idx_project_events_project_created");
    v.push("idx_forwarding_logs_message");
    v.push("idx_backup_logs_created");
    v.push("idx_automation_runs_created");
    v.push("idx_retry_queue_status_due");
    v.push("idx_retry_queue_key");
    assert(v@.map_values(|n: &str| n@) =~= legacy_indexes());
    v
}

fn legacy_table_names() -> (r: Vec<&'static str>)
    ensures
        r@.map_values(|n: &str| n@) == legacy_tables(),
{
    let mut v: Vec<&'static str> = Vec::new();
    v.push("account_tags");
    v.push("tags");
    v.push("project_account_events");
    v.push("project_accounts");
    v.push("project_group_scopes");
    v.push("project_tag_scopes");
    v.push("projects");
    v.push("retry_queue");
    v.push("automation_runs");
    v.push("forwarding_logs");
    v.push("backup_logs");
    v.push("refresh_logs");
    assert(v@.map_values(|n: &str| n@) =~= legacy_tables());
    v
}

fn legacy_account_column_names() -> (r: Vec<&'static str>)
    ensures
        r@.map_values(|n: &str| n@) == legacy_account_columns(),
{
    let mut v: Vec<&'static str> = Vec::new();
    v.push("forward_enabled");
    v.push("forward_last_checked_at");
    assert(v@.map_values(|n: &str| n@) =~= legacy_account_columns());
    v
}

fn legacy_group_column_names() -> (r: Vec<&'static str>)
    ensures
        r@.map_values(|n: &str| n@) == legacy_group_columns(),
{
    let mut v: Vec<&'static str> = Vec::new();
    v.push("color");
    v.push("proxy_url");
    v.push("fallback_proxy_url_1");
    v.push("fallback_proxy_url_2");
    assert(v@.map_values(|n: &str| n@) =~= legacy_group_columns());
    v
}

fn legacy_config_key_names() -> (r: Vec<String>)
    ensures
        views_s(r@) == legacy_config_keys(),
{
    let mut v: Vec<String> = Vec::new();
    v.push("webdav_url".to_string());
    v.push("webdav_username".to_string());
    v.push("webdav_password".to_string());
    v.push("forward_smtp_host".to_string());
    v.push("forward_smtp_port".to_string());
    v.push("forward_smtp_username".to_string());
    v.push("forward_smtp_password".to_string());
    v.push("forward_smtp_from".to_string());
    v.push("forward_smtp_to".to_string());
    v.push("forward_telegram_bot_token".to_string());
    v.push("forward_telegram_chat_id".to_string());
    v.push("forward_wecom_webhook".to_string());
    v.push("appearance_theme".to_string());
    v.push("accent_color".to_string());
    v.push("scheduler_last_forwarding_at".to_string());
    v.push("scheduler_last_backup_at".to_string());
    assert(views_s(v@) =~= legacy_config_keys());
    v
}

/// How to retire the old schema from a database whose `accounts` and
/// `groups` tables have the given columns.
pub fn legacy_schema_plan(account_columns: &[String], group_columns: &[String]) -> (r:
    LegacySchemaPlan)
    ensures
        views_s(r.statements@) == legacy_cleanup(views_s(account_columns@), views_s(group_columns@)),
        views_s(r.config_keys@) == legacy_config_keys(),
{
    let mut statements: Vec<String> = Vec::new();
    push_all(&mut statements, "DROP INDEX IF EXISTS ", &legacy_index_names());
    push_all(&mut statements, "DROP TABLE IF EXISTS ", &legacy_table_names());
    push_column_drops(&mut statements, "accounts", &legacy_account_column_names(), account_columns);
    push_column_drops(&mut statements, "groups", &legacy_group_column_names(), group_columns);
    assert(views_s(statements@) =~= legacy_cleanup(
        views_s(account_columns@),
        views_s(group_columns@),
    ));
    LegacySchemaPlan { statements, config_keys: legacy_config_key_names() }
}

} // verus!
