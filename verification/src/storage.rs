//! Rules of the local store: classifying failures, normalising the values
//! that requests carry, and the messages reported back.
use crate::error::{invalid_input, invalid_input_chars, is_invalid_input, AppError, AppResult};
use crate::models::{
    AccountCredentials, ClearLocalDataInput, ClearLocalDataResult, DEFAULT_LOGIN_USERNAME,
    JobResult, OAuthSaveAccountInput, OAuthTokenResult, Settings, UpdateAccountInput,
};
use crate::oauth::OAuthTokenResponse;
use crate::providers::{
    mail_provider_definition, mail_provider_supports_capability, normalize_mail_provider_id,
    normalize_provider, opt_text, provider_spec, strings_contain, supports_capability, views_s,
    MAIL_REFRESH_MAX_TOP, ProviderSpec,
};
use crate::text::{
    append_chars, append_str, boundary_index, byte_boundary_index, chars_of, contains_char,
    contains_seq, contains_str, decimal, decimal_u64, eq_chars, eq_ignore_case, eq_ignore_case_str,
    eq_str, is_byte_boundary, is_byte_boundary_exec, join, join_exec, lemma_utf8_prefix_strict,
    lower, opt_chars, opt_str_view, starts_with, starts_with_str, string_of, subrange,
    text_or_empty, to_ascii_lower, trim, trim_chars, trim_str, utf8_byte_len, utf8_len_seq, views,
};
use vstd::prelude::*;

verus! {

broadcast use vstd::string::group_string_axioms;

// ---------------------------------------------------------------------------
// Error categories
// ---------------------------------------------------------------------------

/// Credential, permission and login failures (English and Chinese wording).
pub open spec fn mentions_auth(l: Seq<char>) -> bool {
    ||| contains_seq(l, "auth"@)
    ||| contains_seq(l, "unauthorized"@)
    ||| contains_seq(l, "forbidden"@)
    ||| contains_seq(l, "http 401"@)
    ||| contains_seq(l, "http 403"@)
    ||| contains_seq(l, "status 401"@)
    ||| contains_seq(l, "status 403"@)
    ||| contains_seq(l, "invalid_grant"@)
    ||| contains_seq(l, "insufficientpermissions"@)
    ||| contains_seq(l, "insufficient permissions"@)
    ||| contains_seq(l, "insufficient privileges"@)
    ||| contains_seq(l, "scope"@)
    ||| contains_seq(l, "credential"@)
    ||| contains_seq(l, "password"@)
    ||| contains_seq(l, "token"@)
    ||| contains_seq(l, "login"@)
    ||| contains_seq(l, "授权码"@)
    ||| contains_seq(l, "授权密码"@)
    ||| contains_seq(l, "客户端授权"@)
    ||| contains_seq(l, "登录密码"@)
    ||| contains_seq(l, "未授权"@)
    ||| contains_seq(l, "权限不足"@)
    ||| contains_seq(l, "认证"@)
    ||| contains_seq(l, "鉴权"@)
    ||| contains_seq(l, "令牌"@)
}

pub open spec fn mentions_rate_limit(l: Seq<char>) -> bool {
    ||| contains_seq(l, "429"@)
    ||| contains_seq(l, "rate limit"@)
    ||| contains_seq(l, "too many requests"@)
    ||| contains_seq(l, "throttle"@)
}

pub open spec fn mentions_network(l: Seq<char>) -> bool {
    ||| contains_seq(l, "timeout"@)
    ||| contains_seq(l, "timed out"@)
    ||| contains_seq(l, "connection"@)
    ||| contains_seq(l, "connect"@)
    ||| contains_seq(l, "dns"@)
    ||| contains_seq(l, "network"@)
    ||| contains_seq(l, "proxy"@)
    ||| contains_seq(l, "tls"@)
    ||| contains_seq(l, "refused"@)
}

pub open spec fn mentions_config(l: Seq<char>) -> bool {
    ||| contains_seq(l, "configure"@)
    ||| contains_seq(l, "required"@)
    ||| contains_seq(l, "missing"@)
    ||| contains_seq(l, "unsupported"@)
}

pub open spec fn mentions_storage(l: Seq<char>) -> bool {
    ||| contains_seq(l, "sqlite"@)
    ||| contains_seq(l, "database"@)
    ||| contains_seq(l, "disk"@)
    ||| contains_seq(l, "permission"@)
    ||| contains_seq(l, "backup"@)
}

pub open spec fn mentions_data(l: Seq<char>) -> bool {
    ||| contains_seq(l, "parse"@)
    ||| contains_seq(l, "invalid"@)
    ||| contains_seq(l, "not found"@)
    ||| contains_seq(l, "deserialize"@)
}

pub open spec fn mentions_provider(l: Seq<char>) -> bool {
    ||| contains_seq(l, "imap"@)
    ||| contains_seq(l, "smtp"@)
    ||| contains_seq(l, "graph"@)
    ||| contains_seq(l, "http 5"@)
}

/// The category of an error message: the first group, in priority order,
/// one of whose keywords occurs in the ASCII-lower-cased message.
pub open spec fn error_category(error: Seq<char>) -> Seq<char> {
    let l = lower(error);
    if trim(l).len() == 0 {
        "none"@
    } else if mentions_auth(l) {
        "auth"@
    } else if mentions_rate_limit(l) {
        "rate_limit"@
    } else if mentions_network(l) {
        "network"@
    } else if mentions_config(l) {
        "config"@
    } else if mentions_storage(l) {
        "storage"@
    } else if mentions_data(l) {
        "data"@
    } else if mentions_provider(l) {
        "provider"@
    } else {
        "unknown"@
    }
}

fn has_auth_keyword(l: &Vec<char>) -> (r: bool)
    ensures
        r == mentions_auth(l@),
{
    contains_str(l, "auth") || contains_str(l, "unauthorized") || contains_str(l, "forbidden")
        || contains_str(l, "http 401") || contains_str(l, "http 403") || contains_str(
        l,
        "status 401",
    ) || contains_str(l, "status 403") || contains_str(l, "invalid_grant") || contains_str(
        l,
        "insufficientpermissions",
    ) || contains_str(l, "insufficient permissions") || contains_str(
        l,
        "insufficient privileges",
    ) || contains_str(l, "scope") || contains_str(l, "credential") || contains_str(l, "password")
        || contains_str(l, "token") || contains_str(l, "login") || contains_str(l, "授权码")
        || contains_str(l, "授权密码") || contains_str(l, "客户端授权") || contains_str(
        l,
        "登录密码",
    ) || contains_str(l, "未授权") || contains_str(l, "权限不足") || contains_str(l, "认证")
        || contains_str(l, "鉴权") || contains_str(l, "令牌")
}

fn has_rate_limit_keyword(l: &Vec<char>) -> (r: bool)
    ensures
        r == mentions_rate_limit(l@),
{
    contains_str(l, "429") || contains_str(l, "rate limit") || contains_str(l, "too many requests")
        || contains_str(l, "throttle")
}

fn has_network_keyword(l: &Vec<char>) -> (r: bool)
    ensures
        r == mentions_network(l@),
{
    contains_str(l, "timeout") || contains_str(l, "timed out") || contains_str(l, "connection")
        || contains_str(l, "connect") || contains_str(l, "dns") || contains_str(l, "network")
        || contains_str(l, "proxy") || contains_str(l, "tls") || contains_str(l, "refused")
}

fn has_config_keyword(l: &Vec<char>) -> (r: bool)
    ensures
        r == mentions_config(l@),
{
    contains_str(l, "configure") || contains_str(l, "required") || contains_str(l, "missing")
        || contains_str(l, "unsupported")
}

fn has_storage_keyword(l: &Vec<char>) -> (r: bool)
    ensures
        r == mentions_storage(l@),
{
    contains_str(l, "sqlite") || contains_str(l, "database") || contains_str(l, "disk")
        || contains_str(l, "permission") || contains_str(l, "backup")
}

fn has_data_keyword(l: &Vec<char>) -> (r: bool)
    ensures
        r == mentions_data(l@),
{
    contains_str(l, "parse") || contains_str(l, "invalid") || contains_str(l, "not found")
        || contains_str(l, "deserialize")
}

fn has_provider_keyword(l: &Vec<char>) -> (r: bool)
    ensures
        r == mentions_provider(l@),
{
    contains_str(l, "imap") || contains_str(l, "smtp") || contains_str(l, "graph") || contains_str(
        l,
        "http 5",
    )
}

/// Sorts an error message into one of the categories `none`, `auth`,
/// `rate_limit`, `network`, `config`, `storage`, `data`, `provider` or
/// `unknown`.
pub fn classify_error_category(error: &str) -> (r: &'static str)
    ensures
        r@ == error_category(error@),
{
    let v = chars_of(error);
    let l = to_ascii_lower(&v);
    let t = trim_chars(&l);
    if t.len() == 0 {
        "none"
    } else if has_auth_keyword(&l) {
        "auth"
    } else if has_rate_limit_keyword(&l) {
        "rate_limit"
    } else if has_network_keyword(&l) {
        "network"
    } else if has_config_keyword(&l) {
        "config"
    } else if has_storage_keyword(&l) {
        "storage"
    } else if has_data_keyword(&l) {
        "data"
    } else if has_provider_keyword(&l) {
        "provider"
    } else {
        "unknown"
    }
}


// ---------------------------------------------------------------------------
// Message ids, folders and read states
// ---------------------------------------------------------------------------

/// The positive ids of `ids`, each once, in order of first appearance.
pub open spec fn unique_positive_ids(ids: Seq<i64>) -> Seq<i64>
    decreases ids.len(),
{
    if ids.len() == 0 {
        Seq::empty()
    } else {
        let prefix = unique_positive_ids(ids.drop_last());
        if ids.last() > 0 && !prefix.contains(ids.last()) {
            prefix.push(ids.last())
        } else {
            prefix
        }
    }
}

/// What `unique_positive_ids` keeps: every positive id, once, and nothing else.
pub proof fn lemma_unique_positive_ids(ids: Seq<i64>)
    ensures
        unique_positive_ids(ids).no_duplicates(),
        forall|x: i64| #[trigger]
            unique_positive_ids(ids).contains(x) <==> (x > 0 && ids.contains(x)),
    decreases ids.len(),
{
    if ids.len() > 0 {
        let init = ids.drop_last();
        lemma_unique_positive_ids(init);
        assert forall|x: i64| ids.contains(x) <==> (init.contains(x) || x == ids.last()) by {
            if ids.contains(x) {
                let k = choose|k: int| 0 <= k < ids.len() && ids[k] == x;
                if k < ids.len() - 1 {
                    assert(init[k] == x);
                }
            }
            if init.contains(x) {
                let k = choose|k: int| 0 <= k < init.len() && init[k] == x;
                assert(ids[k] == x);
            }
            if x == ids.last() {
                assert(ids[ids.len() - 1] == x);
            }
        }
        let prefix = unique_positive_ids(init);
        if ids.last() > 0 && !prefix.contains(ids.last()) {
            let r = prefix.push(ids.last());
            assert forall|x: i64| r.contains(x) <==> (prefix.contains(x) || x == ids.last()) by {
                if r.contains(x) {
                    let k = choose|k: int| 0 <= k < r.len() && r[k] == x;
                    if k < prefix.len() {
                        assert(prefix[k] == x);
                    }
                }
                if prefix.contains(x) {
                    let k = choose|k: int| 0 <= k < prefix.len() && prefix[k] == x;
                    assert(r[k] == x);
                }
                if x == ids.last() {
                    assert(r[r.len() - 1] == x);
                }
            }
            assert(unique_positive_ids(ids) == r);
            assert forall|x: i64| r.contains(x) <==> (x > 0 && ids.contains(x)) by {
                assert(ids.contains(x) <==> (init.contains(x) || x == ids.last()));
                assert(prefix.contains(x) <==> (x > 0 && init.contains(x)));
            }
        } else {
            assert(unique_positive_ids(ids) == prefix);
            assert forall|x: i64| prefix.contains(x) <==> (x > 0 && ids.contains(x)) by {
                assert(ids.contains(x) <==> (init.contains(x) || x == ids.last()));
                assert(prefix.contains(x) <==> (x > 0 && init.contains(x)));
                if x > 0 && ids.contains(x) && x != ids.last() {
                    assert(init.contains(x));
                }
            }
        }
    } else {
        assert forall|x: i64| !unique_positive_ids(ids).contains(x) && !ids.contains(x) by {
            assert(unique_positive_ids(ids).len() == 0);
        }
    }
}

/// `normalize_message_ids`: the selected ids, positive and without repeats,
/// or an error when none is left.
pub fn normalize_message_ids(ids: &[i64]) -> (r: AppResult<Vec<i64>>)
    ensures
        unique_positive_ids(ids@).len() > 0 ==> (r matches Ok(v) && v@
            == unique_positive_ids(ids@)),
        unique_positive_ids(ids@).len() == 0 ==> (r matches Err(e) && is_invalid_input(
            e,
            "select at least one message"@,
        )),
        r matches Ok(v) ==> v@.no_duplicates() && forall|x: i64|
            v@.contains(x) <==> (x > 0 && ids@.contains(x)),
{
    let mut normalized: Vec<i64> = Vec::new();
    let mut i: usize = 0;
    while i < ids.len()
        invariant
            0 <= i <= ids.len(),
            normalized@ == unique_positive_ids(ids@.take(i as int)),
        decreases ids.len() - i,
    {
        let id = ids[i];
        let ghost t = ids@.take(i + 1);
        assert(t.drop_last() =~= ids@.take(i as int));
        let mut seen = false;
        let mut k: usize = 0;
        while k < normalized.len()
            invariant
                0 <= k <= normalized.len(),
                seen <==> exists|j: int| 0 <= j < k && normalized@[j] == id,
            decreases normalized.len() - k,
        {
            if normalized[k] == id {
                seen = true;
            }
            k = k + 1;
        }
        if id > 0 && !seen {
            normalized.push(id);
        }
        i = i + 1;
    }
    assert(ids@.take(ids.len() as int) =~= ids@);
    proof {
        lemma_unique_positive_ids(ids@);
        assert(normalized@ == unique_positive_ids(ids@));
        assert(normalized@.no_duplicates());
        assert forall|x: i64| normalized@.contains(x) <==> (x > 0 && ids@.contains(x)) by {
            assert(unique_positive_ids(ids@).contains(x) <==> (x > 0 && ids@.contains(x)));
        }
    }
    if normalized.len() == 0 {
        return Err(invalid_input("select at least one message"));
    }
    Ok(normalized)
}

/// The mail folder a user-written name selects: `inbox`, `junkemail`,
/// `deleteditems`, or `all` for anything else.
pub open spec fn mail_folder(value: Seq<char>) -> Seq<char> {
    let v = lower(trim(value));
    if v == "inbox"@ {
        "inbox"@
    } else if v == "junk"@ || v == "junkemail"@ {
        "junkemail"@
    } else if v == "deleted"@ || v == "deleteditems"@ {
        "deleteditems"@
    } else {
        "all"@
    }
}

pub fn normalize_mail_folder(value: &str) -> (r: String)
    ensures
        r@ == mail_folder(value@),
{
    let t = trim_str(value);
    let v = to_ascii_lower(&t);
    let out = if eq_str(&v, "inbox") {
        "inbox"
    } else if eq_str(&v, "junk") || eq_str(&v, "junkemail") {
        "junkemail"
    } else if eq_str(&v, "deleted") || eq_str(&v, "deleteditems") {
        "deleteditems"
    } else {
        "all"
    };
    string_of(&chars_of(out))
}

/// The read-state filter a request names: `all` (also for an empty or
/// missing value), `read` or `unread`; anything else is refused.
pub open spec fn read_state_text(value: Option<Seq<char>>) -> Option<Seq<char>> {
    let v = lower(
        trim(
            match value {
                Some(s) => s,
                None => "all"@,
            },
        ),
    );
    if v.len() == 0 || v == "all"@ {
        Some("all"@)
    } else if v == "read"@ {
        Some("read"@)
    } else if v == "unread"@ {
        Some("unread"@)
    } else {
        None
    }
}

pub open spec fn read_state(value: Option<&str>) -> Option<Seq<char>> {
    read_state_text(opt_str_view(value))
}

pub fn normalize_read_state(value: Option<&str>) -> (r: AppResult<String>)
    ensures
        read_state(value) matches Some(s) ==> (r matches Ok(x) && x@ == s),
        read_state(value) is None ==> (r matches Err(e) && is_invalid_input(
            e,
            "read_state must be all, read, or unread"@,
        )),
{
    let raw = match value {
        Some(s) => chars_of(s),
        None => chars_of("all"),
    };
    let t = trim_chars(&raw);
    let v = to_ascii_lower(&t);
    if v.len() == 0 || eq_str(&v, "all") {
        Ok(string_of(&chars_of("all")))
    } else if eq_str(&v, "read") {
        Ok(string_of(&chars_of("read")))
    } else if eq_str(&v, "unread") {
        Ok(string_of(&chars_of("unread")))
    } else {
        Err(invalid_input("read_state must be all, read, or unread"))
    }
}


// ---------------------------------------------------------------------------
// OAuth providers
// ---------------------------------------------------------------------------

/// How an OAuth provider request is settled: `Ok(None)` when none is named
/// (`value` is empty when the request names none), `Ok(Some(id))` for Graph
/// or IMAP, an error message otherwise.
pub open spec fn oauth_provider_request(value: Seq<char>) -> Result<
    Option<Seq<char>>,
    Seq<char>,
> {
    let p = lower(trim(value));
    if p.len() == 0 {
        Ok(None)
    } else if normalize_provider(p) == Some("graph"@) {
        Ok(Some("graph"@))
    } else if normalize_provider(p) == Some("imap"@) {
        Ok(Some("imap"@))
    } else if normalize_provider(p) == Some("gmail"@) {
        Err("Gmail OAuth is disabled; use IMAP app password"@)
    } else {
        Err("unsupported OAuth provider: "@ + p)
    }
}

/// The provider of an OAuth account request; Gmail OAuth and providers
/// without Microsoft OAuth are refused.
pub fn normalize_oauth_provider(value: Option<&str>) -> (r: AppResult<Option<String>>)
    ensures
        match oauth_provider_request(opt_text(value)) {
            Ok(None) => r matches Ok(None),
            Ok(Some(id)) => r matches Ok(Some(x)) && x@ == id,
            Err(msg) => r matches Err(e) && is_invalid_input(e, msg),
        },
{
    let raw = match value {
        Some(s) => chars_of(s),
        None => Vec::new(),
    };
    let t = trim_chars(&raw);
    let p = to_ascii_lower(&t);
    if p.len() == 0 {
        return Ok(None);
    }
    let ps = string_of(&p);
    match normalize_mail_provider_id(ps.as_str()) {
        Some(id) => {
            let idc = chars_of(id);
            if eq_str(&idc, "graph") {
                Ok(Some(string_of(&chars_of("graph"))))
            } else if eq_str(&idc, "imap") {
                Ok(Some(string_of(&chars_of("imap"))))
            } else if eq_str(&idc, "gmail") {
                Err(invalid_input("Gmail OAuth is disabled; use IMAP app password"))
            } else {
                let mut m = chars_of("unsupported OAuth provider: ");
                append_chars(&mut m, &p);
                Err(invalid_input_chars(&m))
            }
        },
        None => {
            let mut m = chars_of("unsupported OAuth provider: ");
            append_chars(&mut m, &p);
            Err(invalid_input_chars(&m))
        },
    }
}

/// The account type stored for an OAuth account: the registry's account type
/// of the provider, or the provider name itself when it is not registered.
pub open spec fn oauth_account_kind(provider: Seq<char>) -> Seq<char> {
    match normalize_provider(provider) {
        Some(id) => provider_spec(id).account_type,
        None => provider,
    }
}

pub fn oauth_account_type(provider: &str) -> (r: String)
    ensures
        r@ == oauth_account_kind(provider@),
{
    match mail_provider_definition(provider) {
        Some(definition) => string_of(&chars_of(definition.account_type)),
        None => string_of(&chars_of(provider)),
    }
}

// ---------------------------------------------------------------------------
// Messages
// ---------------------------------------------------------------------------

/// The summary of a bulk mail action.  Without remote failures it counts the
/// changed messages; otherwise it also counts the failures and quotes the
/// first three error texts, marking that more were left out.
pub open spec fn action_message(
    action: Seq<char>,
    changed: nat,
    failed: nat,
    errors: Seq<Seq<char>>,
) -> Seq<char> {
    if failed == 0 {
        action + " "@ + decimal(changed) + " message(s)"@
    } else {
        let preview = join(errors.take(if errors.len() < 3 { errors.len() as int } else { 3 }), "; "@);
        action + " "@ + decimal(changed) + " local message(s), "@ + decimal(failed)
            + " remote sync failed: "@ + preview + if errors.len() > 3 {
            "; ..."@
        } else {
            Seq::empty()
        }
    }
}

/// How a message whose remote change failed is reported: `#id provider-id: error`.
pub fn mail_action_error(id: i64, provider_message_id: &str, error: &str) -> (r: String)
    ensures
        r@ == "#"@ + crate::text::decimal_int(id as int) + " "@ + provider_message_id@ + ": "@ + error@,
{
    let mut out = chars_of("#");
    append_chars(&mut out, &crate::text::decimal_i64(id));
    append_str(&mut out, " ");
    append_str(&mut out, provider_message_id);
    append_str(&mut out, ": ");
    append_str(&mut out, error);
    string_of(&out)
}

pub fn mail_action_message(action: &str, changed: usize, failed: usize, errors: &[String]) -> (r:
    String)
    ensures
        r@ == action_message(action@, changed as nat, failed as nat, views_s(errors@)),
{
    let mut out = chars_of(action);
    append_str(&mut out, " ");
    let c = decimal_u64(changed as u64);
    append_chars(&mut out, &c);
    if failed == 0 {
        append_str(&mut out, " message(s)");
        return string_of(&out);
    }
    let n: usize = if errors.len() < 3 {
        errors.len()
    } else {
        3
    };
    let mut first: Vec<Vec<char>> = Vec::new();
    let mut i: usize = 0;
    while i < n
        invariant
            0 <= i <= n <= errors.len(),
            views(first@) == views_s(errors@).take(i as int),
        decreases n - i,
    {
        let ghost old_first = views(first@);
        first.push(chars_of(errors[i].as_str()));
        assert(views(first@) =~= old_first.push(errors@[i as int]@));
        assert(views_s(errors@).take(i + 1) =~= views_s(errors@).take(i as int).push(
            errors@[i as int]@,
        ));
        i = i + 1;
    }
    let preview = join_exec(&first, &chars_of("; "));
    append_str(&mut out, " local message(s), ");
    let f = decimal_u64(failed as u64);
    append_chars(&mut out, &f);
    append_str(&mut out, " remote sync failed: ");
    append_chars(&mut out, &preview);
    if errors.len() > 3 {
        append_str(&mut out, "; ...");
    }
    let r = string_of(&out);
    assert(r@ =~= action_message(action@, changed as nat, failed as nat, views_s(errors@)));
    r
}

// ---------------------------------------------------------------------------
// Addresses, proxies and secrets
// ---------------------------------------------------------------------------

/// An address as stored: trimmed and ASCII lower-cased; it must hold an `@`.
pub open spec fn normalized_email(value: Seq<char>) -> Option<Seq<char>> {
    let e = lower(trim(value));
    if e.contains('@') {
        Some(e)
    } else {
        None
    }
}

pub fn normalize_email(value: &str) -> (r: AppResult<String>)
    ensures
        normalized_email(value@) matches Some(e) ==> (r matches Ok(x) && x@ == e),
        normalized_email(value@) is None ==> (r matches Err(e) && is_invalid_input(
            e,
            "email is invalid"@,
        )),
{
    let t = trim_str(value);
    let e = to_ascii_lower(&t);
    if !contains_char(&e, '@') {
        return Err(invalid_input("email is invalid"));
    }
    Ok(string_of(&e))
}

/// A proxy setting: empty when missing or blank, otherwise the trimmed URL,
/// which must use the `http://` or `https://` scheme (in any ASCII case).
pub open spec fn proxy_value(value: Option<Seq<char>>) -> Option<Seq<char>> {
    match value {
        None => Some(Seq::empty()),
        Some(v) => {
            let p = trim(v);
            if p.len() == 0 {
                Some(Seq::empty())
            } else if starts_with(lower(p), "http://"@) || starts_with(lower(p), "https://"@) {
                Some(p)
            } else {
                None
            }
        },
    }
}

pub fn normalize_proxy_value(value: Option<&str>) -> (r: AppResult<String>)
    ensures
        proxy_value(opt_str_view(value)) matches Some(p) ==> (r matches Ok(x) && x@ == p),
        proxy_value(opt_str_view(value)) is None ==> (r matches Err(e) && is_invalid_input(
            e,
            "proxy URL must start with http:// or https://"@,
        )),
{
    let v = match value {
        Some(v) => v,
        None => {
            return Ok(String::new());
        },
    };
    let p = trim_str(v);
    if p.len() == 0 {
        return Ok(String::new());
    }
    let l = to_ascii_lower(&p);
    if !(starts_with_str(&l, "http://") || starts_with_str(&l, "https://")) {
        return Err(invalid_input("proxy URL must start with http:// or https://"));
    }
    Ok(string_of(&p))
}

/// `proxy_value` of an optional setting: `Some(None)` when the setting is
/// absent, `None` when it is refused.
pub open spec fn proxy_option(value: Option<Seq<char>>) -> Option<Option<Seq<char>>> {
    match value {
        None => Some(None),
        Some(v) => match proxy_value(Some(v)) {
            Some(p) => Some(Some(p)),
            None => None,
        },
    }
}

/// `normalize_proxy_value` applied to an optional value, keeping `None`.
pub fn normalize_proxy_option(value: Option<&str>) -> (r: AppResult<Option<String>>)
    ensures
        value is None ==> r matches Ok(None),
        value matches Some(v) ==> match proxy_value(Some(v@)) {
            Some(p) => r matches Ok(Some(x)) && x@ == p,
            None => r matches Err(e) && is_invalid_input(
                e,
                "proxy URL must start with http:// or https://"@,
            ),
        },
{
    match value {
        Some(item) => match normalize_proxy_value(Some(item)) {
            Ok(p) => Ok(Some(p)),
            Err(e) => Err(e),
        },
        None => Ok(None),
    }
}

/// The proxy chain built from a list of values: each normalised, blanks
/// dropped, and a proxy kept only the first time it appears (ignoring ASCII
/// case); `None` when some value is not an HTTP(S) URL.
pub open spec fn proxy_chain(values: Seq<Seq<char>>) -> Option<Seq<Seq<char>>>
    decreases values.len(),
{
    if values.len() == 0 {
        Some(Seq::empty())
    } else {
        match proxy_chain(values.drop_last()) {
            None => None,
            Some(chain) => match proxy_value(Some(values.last())) {
                None => None,
                Some(p) => if p.len() == 0 || lowered(chain).contains(lower(p)) {
                    Some(chain)
                } else {
                    Some(chain.push(p))
                },
            },
        }
    }
}

/// The ASCII-lower-cased forms of a list of strings.
pub open spec fn lowered(v: Seq<Seq<char>>) -> Seq<Seq<char>> {
    Seq::new(v.len(), |i: int| lower(v[i]))
}

pub open spec fn str_slice_views(v: Seq<&str>) -> Seq<Seq<char>> {
    Seq::new(v.len(), |i: int| v[i]@)
}

/// A proxy chain tries the primary proxy first, then the fallbacks in
/// order, each once whatever its ASCII case, and skips blank settings.
pub proof fn law_proxy_chain_primary_first_without_repeats(values: Seq<Seq<char>>)
    ensures
        proxy_chain(values) matches Some(c) ==> {
            &&& lowered(c).no_duplicates()
            &&& forall|i: int| 0 <= i < c.len() ==> (#[trigger] c[i]).len() > 0
            &&& values.len() > 0 && proxy_value(Some(values[0])) is Some && proxy_value(
                Some(values[0]),
            )->0.len() > 0 ==> c.len() > 0 && c[0] == proxy_value(Some(values[0]))->0
        },
    decreases values.len(),
{
    if values.len() > 0 {
        let init = values.drop_last();
        law_proxy_chain_primary_first_without_repeats(init);
        if let Some(chain) = proxy_chain(init) {
            if let Some(p) = proxy_value(Some(values.last())) {
                if !(p.len() == 0 || lowered(chain).contains(lower(p))) {
                    assert(lowered(chain.push(p)) =~= lowered(chain).push(lower(p)));
                    assert forall|a: int, b: int|
                        0 <= a < b < lowered(chain.push(p)).len() implies lowered(chain.push(p))[a]
                        != lowered(chain.push(p))[b] by {
                        if b == chain.len() {
                            assert(lowered(chain).contains(lowered(chain)[a]));
                        }
                    }
                }
            }
            if values.len() > 1 {
                assert(init[0] == values[0]);
            }
        }
    }
}

pub fn proxy_chain_from_values(values: &[&str]) -> (r: AppResult<Vec<String>>)
    ensures
        proxy_chain(str_slice_views(values@)) matches Some(c) ==> (r matches Ok(v) && views_s(
            v@,
        ) == c),
        proxy_chain(str_slice_views(values@)) is None ==> (r matches Err(e) && is_invalid_input(
            e,
            "proxy URL must start with http:// or https://"@,
        )),
{
    let mut chain: Vec<String> = Vec::new();
    let mut seen: Vec<Vec<char>> = Vec::new();
    let mut i: usize = 0;
    while i < values.len()
        invariant
            0 <= i <= values.len(),
            proxy_chain(str_slice_views(values@).take(i as int)) == Some(views_s(chain@)),
            views(seen@) == lowered(views_s(chain@)),
        decreases values.len() - i,
    {
        let ghost t = str_slice_views(values@).take(i + 1);
        assert(t.drop_last() =~= str_slice_views(values@).take(i as int));
        assert(t.last() == values@[i as int]@);
        let proxy = match normalize_proxy_value(Some(values[i])) {
            Ok(p) => p,
            Err(e) => {
                proof {
                    lemma_proxy_chain_none_extends(str_slice_views(values@), i + 1);
                    assert(str_slice_views(values@).take(values.len() as int) =~= str_slice_views(values@));
                }
                return Err(e);
            },
        };
        let pc = chars_of(proxy.as_str());
        if pc.len() > 0 {
            let key = to_ascii_lower(&pc);
            let mut dup = false;
            let mut k: usize = 0;
            while k < seen.len()
                invariant
                    0 <= k <= seen.len(),
                    dup <==> exists|j: int| 0 <= j < k && views(seen@)[j] == key@,
                decreases seen.len() - k,
            {
                if eq_chars(&seen[k], &key) {
                    assert(views(seen@)[k as int] == key@);
                    dup = true;
                }
                k = k + 1;
            }
            proof {
                if views(seen@).contains(key@) {
                    let j = choose|j: int| 0 <= j < seen.len() && views(seen@)[j] == key@;
                    assert(dup);
                }
            }
            if !dup {
                let ghost old_c = views_s(chain@);
                let ghost old_s = views(seen@);
                chain.push(proxy);
                seen.push(key);
                assert(views_s(chain@) =~= old_c.push(pc@));
                assert(views(seen@) =~= old_s.push(key@));
                assert(lowered(views_s(chain@)) =~= lowered(old_c).push(lower(pc@)));
            }
        }
        i = i + 1;
    }
    assert(str_slice_views(values@).take(values.len() as int) =~= str_slice_views(values@));
    Ok(chain)
}

/// Once a prefix of the values has no chain, no longer prefix has one.
pub proof fn lemma_proxy_chain_none_extends(values: Seq<Seq<char>>, i: int)
    requires
        0 <= i <= values.len(),
        proxy_chain(values.take(i)) is None,
    ensures
        proxy_chain(values) is None,
    decreases values.len() - i,
{
    if i < values.len() {
        let t = values.take(i + 1);
        assert(t.drop_last() =~= values.take(i));
        lemma_proxy_chain_none_extends(values, i + 1);
    } else {
        assert(values.take(i) =~= values);
    }
}


/// `preview_secret` cuts at bytes 4 and `len - 4`; it can do so when the
/// secret has at most ten bytes or both cuts fall between characters.
pub open spec fn preview_cuttable(s: Seq<char>) -> bool {
    utf8_len_seq(s) <= 10 || (is_byte_boundary(s, 4) && is_byte_boundary(
        s,
        utf8_len_seq(s) - 4,
    ))
}

/// The masked preview of a secret: one `*` per byte for short secrets,
/// otherwise its first and last four bytes around `...`.
pub open spec fn secret_preview(s: Seq<char>) -> Seq<char> {
    let n = utf8_len_seq(s);
    if n <= 10 {
        Seq::new(n, |i: int| '*')
    } else {
        s.take(boundary_index(s, 4)) + "..."@ + s.skip(boundary_index(s, n - 4))
    }
}

/// Whether `preview_secret` can cut `value`.
pub fn preview_is_cuttable(value: &str) -> (r: bool)
    ensures
        r == preview_cuttable(value@),
{
    let v = chars_of(value);
    let n = utf8_byte_len(&v);
    if n <= 10 {
        return true;
    }
    is_byte_boundary_exec(&v, 4) && is_byte_boundary_exec(&v, n - 4)
}

pub fn preview_secret(value: &str) -> (r: String)
    requires
        preview_cuttable(value@),
    ensures
        r@ == secret_preview(value@),
{
    let v = chars_of(value);
    let n = utf8_byte_len(&v);
    if n <= 10 {
        let mut out: Vec<char> = Vec::new();
        let mut i: u128 = 0;
        while i < n
            invariant
                0 <= i <= n,
                out@ == Seq::new(i as nat, |j: int| '*'),
            decreases n - i,
        {
            out.push('*');
            assert(out@ =~= Seq::new((i + 1) as nat, |j: int| '*'));
            i = i + 1;
        }
        return string_of(&out);
    }
    let k1 = byte_boundary_index(&v, 4);
    let k2 = byte_boundary_index(&v, n - 4);
    proof {
        if k2 < k1 {
            lemma_utf8_prefix_strict(v@, k2 as int, k1 as int);
        }
    }
    let mut out = subrange(&v, 0, k1);
    append_str(&mut out, "...");
    let tail = subrange(&v, k2, v.len());
    append_chars(&mut out, &tail);
    assert(v@.subrange(0, k1 as int) =~= v@.take(k1 as int));
    assert(v@.subrange(k2 as int, v.len() as int) =~= v@.skip(k2 as int));
    string_of(&out)
}

// ---------------------------------------------------------------------------
// Login
// ---------------------------------------------------------------------------

/// A login password has at least eight bytes.
pub fn validate_password(password: &str) -> (r: AppResult<()>)
    ensures
        utf8_len_seq(password@) >= 8 <==> r is Ok,
        r matches Err(e) ==> is_invalid_input(e, "login password must be at least 8 characters"@),
{
    let v = chars_of(password);
    if utf8_byte_len(&v) < 8 {
        return Err(invalid_input("login password must be at least 8 characters"));
    }
    Ok(())
}

/// Only the built-in login name is accepted (ignoring surrounding
/// whitespace and ASCII case).
pub fn validate_login_username(username: &str) -> (r: AppResult<()>)
    ensures
        eq_ignore_case(trim(username@), DEFAULT_LOGIN_USERNAME@) <==> r is Ok,
        r matches Err(e) ==> e is Unauthorized,
{
    let t = trim_str(username);
    if eq_ignore_case_str(&t, DEFAULT_LOGIN_USERNAME) {
        return Ok(());
    }
    Err(AppError::Unauthorized)
}

// ---------------------------------------------------------------------------
// Provider adapters and capabilities
// ---------------------------------------------------------------------------

/// The protocol used to reach an account's mailbox.
#[derive(Debug, Clone, Copy, PartialEq, Eq, Structural)]
pub enum MailProviderAdapter {
    Graph,
    Imap,
}

/// The adapter for an account: by its provider, then by its account type,
/// and finally Graph when it holds OAuth credentials.
pub open spec fn provider_adapter(
    provider: Seq<char>,
    account_type: Seq<char>,
    has_oauth: bool,
) -> MailProviderAdapter {
    let p = lower(provider);
    let t = lower(account_type);
    if p == "graph"@ || p == "outlook"@ {
        MailProviderAdapter::Graph
    } else if p == "gmail"@ || p == "imap"@ || p == "imap_custom"@ || p == "qq"@ || p
        == "netease_163"@ {
        MailProviderAdapter::Imap
    } else if t == "outlook"@ || t == "graph"@ {
        MailProviderAdapter::Graph
    } else if t == "gmail"@ || t == "imap"@ {
        MailProviderAdapter::Imap
    } else if has_oauth {
        MailProviderAdapter::Graph
    } else {
        MailProviderAdapter::Imap
    }
}

pub fn mail_provider_adapter(account: &AccountCredentials) -> (r: AppResult<MailProviderAdapter>)
    ensures
        r matches Ok(a) && a == provider_adapter(
            account.provider@,
            account.account_type@,
            account.client_id@.len() > 0 && account.refresh_token@.len() > 0,
        ),
{
    let p = to_ascii_lower(&chars_of(account.provider.as_str()));
    let t = to_ascii_lower(&chars_of(account.account_type.as_str()));
    if eq_str(&p, "graph") || eq_str(&p, "outlook") {
        return Ok(MailProviderAdapter::Graph);
    }
    if eq_str(&p, "gmail") || eq_str(&p, "imap") || eq_str(&p, "imap_custom") || eq_str(&p, "qq")
        || eq_str(&p, "netease_163") {
        return Ok(MailProviderAdapter::Imap);
    }
    if eq_str(&t, "outlook") || eq_str(&t, "graph") {
        Ok(MailProviderAdapter::Graph)
    } else if eq_str(&t, "gmail") || eq_str(&t, "imap") {
        Ok(MailProviderAdapter::Imap)
    } else if account.client_id.as_str().unicode_len() > 0
        && account.refresh_token.as_str().unicode_len() > 0 {
        Ok(MailProviderAdapter::Graph)
    } else {
        Ok(MailProviderAdapter::Imap)
    }
}

/// An account supports a capability when its provider or its account type
/// names a registry provider that has it.
pub open spec fn account_supports(account: AccountCredentials, capability: Seq<char>) -> bool {
    supports_capability(account.provider@, capability) || supports_capability(
        account.account_type@,
        capability,
    )
}

pub fn account_provider_supports_capability(account: &AccountCredentials, capability: &str) -> (r:
    bool)
    ensures
        r == account_supports(*account, capability@),
{
    mail_provider_supports_capability(account.provider.as_str(), capability)
        || mail_provider_supports_capability(account.account_type.as_str(), capability)
}

/// The refusal sent when a provider lacks what an action needs.
pub open spec fn unsupported_action(provider: Seq<char>, action: Seq<char>) -> Seq<char> {
    "mail provider "@ + provider + " does not support "@ + action
}

pub fn require_provider_capability(account: &AccountCredentials, capability: &str, action: &str) -> (r:
    AppResult<()>)
    ensures
        r is Ok <==> account_supports(*account, capability@),
        r matches Err(e) ==> is_invalid_input(e, unsupported_action(account.provider@, action@)),
{
    if account_provider_supports_capability(account, capability) {
        return Ok(());
    }
    let mut m = chars_of("mail provider ");
    append_str(&mut m, account.provider.as_str());
    append_str(&mut m, " does not support ");
    append_str(&mut m, action);
    Err(invalid_input_chars(&m))
}

/// Remote deletion needs either moving to trash or deleting outright.
pub fn require_provider_delete_capability(account: &AccountCredentials) -> (r: AppResult<()>)
    ensures
        r is Ok <==> (account_supports(*account, "trash"@) || account_supports(
            *account,
            "remote_delete"@,
        )),
        r matches Err(e) ==> is_invalid_input(
            e,
            unsupported_action(account.provider@, "remote delete"@),
        ),
{
    if account_provider_supports_capability(account, "trash")
        || account_provider_supports_capability(account, "remote_delete") {
        return Ok(());
    }
    let mut m = chars_of("mail provider ");
    append_str(&mut m, account.provider.as_str());
    append_str(&mut m, " does not support remote delete");
    let r = invalid_input_chars(&m);
    proof {
        reveal_strlit(" does not support remote delete");
        reveal_strlit(" does not support ");
        reveal_strlit("remote delete");
        assert(m@ =~= unsupported_action(account.provider@, "remote delete"@));
    }
    Err(r)
}


// ---------------------------------------------------------------------------
// Settings, refreshes and shares
// ---------------------------------------------------------------------------

/// The refresh interval kept: at least one minute.
pub open spec fn interval_kept(minutes: i64) -> i64 {
    if minutes < 1 {
        1
    } else {
        minutes
    }
}

/// A message count kept for refreshes: between 1 and the refresh maximum.
pub open spec fn top_kept(top: int) -> int {
    if top < 1 {
        1
    } else if top > MAIL_REFRESH_MAX_TOP {
        MAIL_REFRESH_MAX_TOP as int
    } else {
        top
    }
}

/// Settings as they are stored: the interval at least a minute and the
/// refresh size within its bounds; the rest unchanged.
pub fn normalize_settings(settings: Settings) -> (r: Settings)
    ensures
        r.graph_client_id@ == settings.graph_client_id@,
        r.oauth_redirect_uri@ == settings.oauth_redirect_uri@,
        r.scheduler_refresh_enabled == settings.scheduler_refresh_enabled,
        r.scheduler_refresh_interval_minutes == interval_kept(
            settings.scheduler_refresh_interval_minutes,
        ),
        r.scheduler_refresh_top == top_kept(settings.scheduler_refresh_top as int),
{
    let interval = if settings.scheduler_refresh_interval_minutes < 1 {
        1
    } else {
        settings.scheduler_refresh_interval_minutes
    };
    let top = if settings.scheduler_refresh_top < 1 {
        1
    } else if settings.scheduler_refresh_top > 2000 {
        2000
    } else {
        settings.scheduler_refresh_top
    };
    Settings {
        graph_client_id: settings.graph_client_id,
        oauth_redirect_uri: settings.oauth_redirect_uri,
        scheduler_refresh_enabled: settings.scheduler_refresh_enabled,
        scheduler_refresh_interval_minutes: interval,
        scheduler_refresh_top: top,
    }
}

/// Storing settings twice stores the same values as storing them once.
pub proof fn law_settings_normalization_is_idempotent(minutes: i64, top: i64)
    ensures
        interval_kept(interval_kept(minutes)) == interval_kept(minutes),
        top_kept(top_kept(top as int)) == top_kept(top as int),
{
}

/// How many messages a refresh fetches: 0 asks for the maximum, other
/// requests are kept within bounds, and without a request the stored
/// setting is used, within bounds.
pub open spec fn refresh_size(top: Option<usize>, stored_top: i64) -> int {
    match top {
        Some(v) => if v == 0 {
            MAIL_REFRESH_MAX_TOP as int
        } else {
            top_kept(v as int)
        },
        None => top_kept(stored_top as int),
    }
}

pub fn refresh_top_for_input(top: Option<usize>, stored_top: i64) -> (r: usize)
    ensures
        r == refresh_size(top, stored_top),
{
    match top {
        Some(v) => if v == 0 {
            MAIL_REFRESH_MAX_TOP
        } else if v > MAIL_REFRESH_MAX_TOP {
            MAIL_REFRESH_MAX_TOP
        } else {
            v
        },
        None => if stored_top < 1 {
            1
        } else if stored_top > 2000 {
            MAIL_REFRESH_MAX_TOP
        } else {
            stored_top as usize
        },
    }
}

/// An account that failed to refresh, as its address and the reason.
pub open spec fn failure_line(f: (String, String)) -> Seq<char> {
    f.0@ + ": "@ + f.1@
}

/// The report of a refresh run: how many accounts were refreshed and how
/// many messages cached, then, where some failed, how many and why.
pub open spec fn refresh_message(refreshed: nat, cached: nat, failures: Seq<(String, String)>) -> Seq<
    char,
> {
    let base = "Refreshed "@ + decimal(refreshed) + " account(s), cached "@ + decimal(cached)
        + " message(s)"@;
    if failures.len() == 0 {
        base
    } else {
        base + ", "@ + decimal(failures.len()) + " failed: "@ + join(
            failures.map_values(|f: (String, String)| failure_line(f)),
            "; "@,
        )
    }
}

/// The result of refreshing a set of accounts: successful when none failed.
pub fn refresh_job_result(refreshed: usize, cached: usize, failures: &Vec<(String, String)>) -> (r:
    JobResult)
    ensures
        r.success == (failures.len() == 0),
        r.message@ == refresh_message(refreshed as nat, cached as nat, failures@),
        r.refreshed == refreshed,
        r.failed == failures.len(),
{
    let mut m = chars_of("Refreshed ");
    append_chars(&mut m, &decimal_u64(refreshed as u64));
    append_str(&mut m, " account(s), cached ");
    append_chars(&mut m, &decimal_u64(cached as u64));
    append_str(&mut m, " message(s)");
    if failures.len() > 0 {
        let mut lines: Vec<Vec<char>> = Vec::new();
        let mut i: usize = 0;
        while i < failures.len()
            invariant
                0 <= i <= failures.len(),
                lines@.len() == i,
                forall|k: int| 0 <= k < i ==> #[trigger] lines@[k]@ == failure_line(failures@[k]),
            decreases failures.len() - i,
        {
            let mut line = chars_of(failures[i].0.as_str());
            append_str(&mut line, ": ");
            append_str(&mut line, failures[i].1.as_str());
            lines.push(line);
            i = i + 1;
        }
        assert(views(lines@) =~= failures@.map_values(|f: (String, String)| failure_line(f)));
        append_str(&mut m, ", ");
        append_chars(&mut m, &decimal_u64(failures.len() as u64));
        append_str(&mut m, " failed: ");
        let sep = chars_of("; ");
        append_chars(&mut m, &join_exec(&lines, &sep));
    }
    JobResult {
        success: failures.len() == 0,
        message: string_of(&m),
        refreshed,
        failed: failures.len(),
    }
}

/// The title of a share: the given one, trimmed, unless blank.
pub open spec fn share_title_text(title: Option<Seq<char>>) -> Seq<char> {
    match title {
        Some(t) => if trim(t).len() > 0 {
            trim(t)
        } else {
            DEFAULT_SHARE_TITLE@
        },
        None => DEFAULT_SHARE_TITLE@,
    }
}

/// The title of a share when none is given.
pub const DEFAULT_SHARE_TITLE: &'static str = "OutlookEmail local share";

pub fn share_title(title: Option<&str>) -> (r: String)
    ensures
        r@ == share_title_text(opt_str_view(title)),
{
    match title {
        Some(t) => {
            let v = trim_str(t);
            if v.len() > 0 {
                return string_of(&v);
            }
            string_of(&chars_of(DEFAULT_SHARE_TITLE))
        },
        None => string_of(&chars_of(DEFAULT_SHARE_TITLE)),
    }
}

/// How long a share lives: 30 days unless given, between 1 and 365.
pub open spec fn share_days(days: Option<i64>) -> i64 {
    let d = match days {
        Some(v) => v,
        None => 30,
    };
    if d < 1 {
        1
    } else if d > 365 {
        365
    } else {
        d
    }
}

pub fn share_expiry_days(days: Option<i64>) -> (r: i64)
    ensures
        r == share_days(days),
{
    let d = match days {
        Some(v) => v,
        None => 30,
    };
    if d < 1 {
        1
    } else if d > 365 {
        365
    } else {
        d
    }
}

/// What is shown of a share token: its first eight characters.
pub fn share_token_preview(token: &str) -> (r: String)
    ensures
        r@ == (if token@.len() <= 8 { token@ } else { token@.take(8) }),
{
    let v = chars_of(token);
    if v.len() <= 8 {
        return string_of(&v);
    }
    let p = subrange(&v, 0, 8);
    assert(p@ =~= v@.take(8));
    string_of(&p)
}

/// The words a user types to confirm an export of secrets.
pub const SECRET_EXPORT_CONFIRMATION: &'static str = "EXPORT ACCOUNT SECRETS";

pub fn confirm_secret_export(confirm: &str) -> (r: AppResult<()>)
    ensures
        r is Ok <==> trim(confirm@) == SECRET_EXPORT_CONFIRMATION@,
        r matches Err(e) ==> is_invalid_input(
            e,
            "type EXPORT ACCOUNT SECRETS to confirm secret export"@,
        ),
{
    if eq_str(&trim_str(confirm), SECRET_EXPORT_CONFIRMATION) {
        Ok(())
    } else {
        Err(invalid_input("type EXPORT ACCOUNT SECRETS to confirm secret export"))
    }
}

/// The accounts selected for an export: positive ids, each once, in order;
/// an error when none is left.
pub fn selected_account_ids(ids: &[i64]) -> (r: AppResult<Vec<i64>>)
    ensures
        unique_positive_ids(ids@).len() > 0 ==> (r matches Ok(v) && v@
            == unique_positive_ids(ids@)),
        unique_positive_ids(ids@).len() == 0 ==> (r matches Err(e) && is_invalid_input(
            e,
            "select at least one account"@,
        )),
{
    match normalize_message_ids(ids) {
        Ok(v) => Ok(v),
        Err(_) => Err(invalid_input("select at least one account")),
    }
}


// ---------------------------------------------------------------------------
// Account edits
// ---------------------------------------------------------------------------

/// An email address as accounts store it, refused with `message` when it has
/// no `@`.
pub fn checked_email(value: &str, message: &str) -> (r: AppResult<String>)
    ensures
        normalized_email(value@) matches Some(e) ==> (r matches Ok(x) && x@ == e),
        normalized_email(value@) is None ==> (r matches Err(e) && is_invalid_input(e, message@)),
{
    let t = trim_str(value);
    let e = to_ascii_lower(&t);
    if !contains_char(&e, '@') {
        return Err(invalid_input(message));
    }
    Ok(string_of(&e))
}

/// An alias of an account: a valid address other than the primary one.
pub fn account_alias(primary_email: &str, value: &str) -> (r: AppResult<String>)
    ensures
        normalized_email(value@) is None ==> (r matches Err(e) && is_invalid_input(
            e,
            "account alias email is invalid"@,
        )),
        normalized_email(value@) matches Some(a) ==> if a == primary_email@ {
            r matches Err(e) && is_invalid_input(e, "account alias cannot equal the primary email"@)
        } else {
            r matches Ok(x) && x@ == a
        },
{
    let alias = match checked_email(value, "account alias email is invalid") {
        Ok(a) => a,
        Err(e) => {
            return Err(e);
        },
    };
    if eq_chars(&chars_of(alias.as_str()), &chars_of(primary_email)) {
        return Err(invalid_input("account alias cannot equal the primary email"));
    }
    Ok(alias)
}

/// The aliases an account edit stores, from the addresses given in order:
/// each is normalised and must differ from the primary address; a repeat is
/// skipped; one that is another account's primary address or alias is
/// refused.  The first refusal met, in order, is the answer.
pub open spec fn alias_list(
    primary: Seq<char>,
    values: Seq<Seq<char>>,
    other_emails: Seq<Seq<char>>,
    other_aliases: Seq<Seq<char>>,
) -> Result<Seq<Seq<char>>, Seq<char>>
    decreases values.len(),
{
    if values.len() == 0 {
        Ok(Seq::empty())
    } else {
        match alias_list(primary, values.drop_last(), other_emails, other_aliases) {
            Err(m) => Err(m),
            Ok(kept) => match normalized_email(values.last()) {
                None => Err("account alias email is invalid"@),
                Some(a) => if a == primary {
                    Err("account alias cannot equal the primary email"@)
                } else if kept.contains(a) {
                    Ok(kept)
                } else if other_emails.contains(a) {
                    Err("account alias conflicts with another primary email"@)
                } else if other_aliases.contains(a) {
                    Err("account alias conflicts with another account alias"@)
                } else {
                    Ok(kept.push(a))
                },
            },
        }
    }
}

/// A refusal met in the first `k` addresses is the answer for them all.
proof fn lemma_alias_refusal_sticks(
    primary: Seq<char>,
    values: Seq<Seq<char>>,
    other_emails: Seq<Seq<char>>,
    other_aliases: Seq<Seq<char>>,
    k: int,
)
    requires
        0 <= k <= values.len(),
        alias_list(primary, values.take(k), other_emails, other_aliases) is Err,
    ensures
        alias_list(primary, values, other_emails, other_aliases) == alias_list(
            primary,
            values.take(k),
            other_emails,
            other_aliases,
        ),
    decreases values.len() - k,
{
    if k < values.len() {
        assert(values.take(k + 1).drop_last() =~= values.take(k));
        lemma_alias_refusal_sticks(primary, values, other_emails, other_aliases, k + 1);
    } else {
        assert(values.take(k) =~= values);
    }
}

/// The aliases to store for an account whose primary address is
/// `primary_email`, given the primary addresses and the aliases of the
/// other accounts.
pub fn account_aliases(
    primary_email: &str,
    values: &[String],
    other_emails: &[String],
    other_aliases: &[String],
) -> (r: AppResult<Vec<String>>)
    ensures
        match alias_list(primary_email@, views_s(values@), views_s(other_emails@), views_s(other_aliases@)) {
            Ok(v) => r matches Ok(x) && views_s(x@) == v,
            Err(m) => r matches Err(e) && is_invalid_input(e, m),
        },
{
    let ghost vs = views_s(values@);
    let ghost oe = views_s(other_emails@);
    let ghost oa = views_s(other_aliases@);
    let mut kept: Vec<String> = Vec::new();
    let mut i: usize = 0;
    assert(vs.take(0) =~= Seq::<Seq<char>>::empty());
    assert(views_s(kept@) =~= Seq::<Seq<char>>::empty());
    while i < values.len()
        invariant
            0 <= i <= values.len(),
            vs == views_s(values@),
            oe == views_s(other_emails@),
            oa == views_s(other_aliases@),
            alias_list(primary_email@, vs.take(i as int), oe, oa) == Ok::<Seq<Seq<char>>, Seq<char>>(
                views_s(kept@),
            ),
        decreases values.len() - i,
    {
        assert(vs.take(i + 1).drop_last() =~= vs.take(i as int));
        assert(vs.take(i + 1).last() == values@[i as int]@);
        let alias = match account_alias(primary_email, values[i].as_str()) {
            Ok(a) => a,
            Err(e) => {
                proof {
                    if normalized_email(vs[i as int]) is None {
                        assert(alias_list(primary_email@, vs.take(i + 1), oe, oa) == Err::<
                            Seq<Seq<char>>,
                            Seq<char>,
                        >("account alias email is invalid"@));
                    } else {
                        assert(alias_list(primary_email@, vs.take(i + 1), oe, oa) == Err::<
                            Seq<Seq<char>>,
                            Seq<char>,
                        >("account alias cannot equal the primary email"@));
                    }
                    lemma_alias_refusal_sticks(primary_email@, vs, oe, oa, i + 1);
                }
                return Err(e);
            },
        };
        let a = chars_of(alias.as_str());
        if !strings_contain(&kept, &a) {
            if strings_contain(other_emails, &a) {
                proof {
                    assert(normalized_email(vs[i as int]) == Some(a@));
                    assert(alias_list(primary_email@, vs.take(i + 1), oe, oa) == Err::<
                        Seq<Seq<char>>,
                        Seq<char>,
                    >("account alias conflicts with another primary email"@));
                    lemma_alias_refusal_sticks(primary_email@, vs, oe, oa, i + 1);
                }
                return Err(invalid_input("account alias conflicts with another primary email"));
            }
            if strings_contain(other_aliases, &a) {
                proof {
                    assert(normalized_email(vs[i as int]) == Some(a@));
                    assert(alias_list(primary_email@, vs.take(i + 1), oe, oa) == Err::<
                        Seq<Seq<char>>,
                        Seq<char>,
                    >("account alias conflicts with another account alias"@));
                    lemma_alias_refusal_sticks(primary_email@, vs, oe, oa, i + 1);
                }
                return Err(invalid_input("account alias conflicts with another account alias"));
            }
            let ghost before = views_s(kept@);
            kept.push(alias);
            assert(views_s(kept@) =~= before.push(a@));
        }
        i = i + 1;
    }
    assert(vs.take(values.len() as int) =~= vs);
    Ok(kept)
}

/// What an account edit writes besides the fields it copies.
#[derive(Debug, Clone)]
pub struct AccountUpdate {
    pub email: String,
    pub mail_retention_days: Option<i64>,
    pub provider: Option<String>,
    pub account_type: Option<String>,
    pub imap_host: Option<String>,
    pub imap_port: Option<i64>,
    pub proxy_url: Option<String>,
    pub fallback_proxy_url_1: Option<String>,
    pub fallback_proxy_url_2: Option<String>,
}

pub struct AccountUpdateSpec {
    pub email: Seq<char>,
    pub mail_retention_days: Option<i64>,
    pub provider: Option<Seq<char>>,
    pub account_type: Option<Seq<char>>,
    pub imap_host: Option<Seq<char>>,
    pub imap_port: Option<i64>,
    pub proxy_url: Option<Seq<char>>,
    pub fallback_proxy_url_1: Option<Seq<char>>,
    pub fallback_proxy_url_2: Option<Seq<char>>,
}

impl View for AccountUpdate {
    type V = AccountUpdateSpec;

    open spec fn view(&self) -> AccountUpdateSpec {
        AccountUpdateSpec {
            email: self.email@,
            mail_retention_days: self.mail_retention_days,
            provider: opt_chars(self.provider),
            account_type: opt_chars(self.account_type),
            imap_host: opt_chars(self.imap_host),
            imap_port: self.imap_port,
            proxy_url: opt_chars(self.proxy_url),
            fallback_proxy_url_1: opt_chars(self.fallback_proxy_url_1),
            fallback_proxy_url_2: opt_chars(self.fallback_proxy_url_2),
        }
    }
}

/// A retention period, kept between one day and ten years.
pub open spec fn retention_days(days: Option<i64>) -> Option<i64> {
    match days {
        Some(d) => Some(
            if d < 1 {
                1
            } else if d > 3650 {
                3650
            } else {
                d
            },
        ),
        None => None,
    }
}

/// The provider an edit asks for: none when missing or blank, else its
/// registry id, or the refusal naming the trimmed value.
pub open spec fn requested_provider(value: Option<Seq<char>>) -> Result<
    Option<Seq<char>>,
    Seq<char>,
> {
    match value {
        None => Ok(None),
        Some(v) => if trim(v).len() == 0 {
            Ok(None)
        } else {
            match normalize_provider(trim(v)) {
                Some(id) => Ok(Some(id)),
                None => Err("unsupported mail provider: "@ + trim(v)),
            }
        },
    }
}

/// The registry entry of a requested provider.
pub open spec fn provider_defaults(id: Option<Seq<char>>) -> Option<ProviderSpec> {
    match id {
        Some(i) => match normalize_provider(i) {
            Some(n) => Some(provider_spec(n)),
            None => None,
        },
        None => None,
    }
}

/// The IMAP host an edit writes: a non-blank given host, else the
/// provider's default host where it has one, else what was given.
pub open spec fn edited_imap_host(host: Option<Seq<char>>, defaults: Option<ProviderSpec>) -> Option<
    Seq<char>,
> {
    if host matches Some(h) && trim(h).len() > 0 {
        host
    } else if defaults matches Some(d) && d.default_imap_host.len() > 0 {
        Some(defaults->0.default_imap_host)
    } else {
        host
    }
}

/// An account edit: the email must hold an `@`, a named provider must be
/// known, and each proxy must be an HTTP(S) URL, refused in that order.
pub open spec fn account_update(input: UpdateAccountInput) -> Result<AccountUpdateSpec, Seq<char>> {
    match normalized_email(input.email@) {
        None => Err("account email is invalid"@),
        Some(email) => match requested_provider(opt_chars(input.provider)) {
            Err(m) => Err(m),
            Ok(provider) => {
                let defaults = provider_defaults(provider);
                let proxy_error = "proxy URL must start with http:// or https://"@;
                match proxy_option(opt_chars(input.proxy_url)) {
                    None => Err(proxy_error),
                    Some(proxy_url) => match proxy_option(opt_chars(input.fallback_proxy_url_1)) {
                        None => Err(proxy_error),
                        Some(fallback_1) => match proxy_option(
                            opt_chars(input.fallback_proxy_url_2),
                        ) {
                            None => Err(proxy_error),
                            Some(fallback_2) => Ok(
                                AccountUpdateSpec {
                                    email,
                                    mail_retention_days: retention_days(input.mail_retention_days),
                                    provider,
                                    account_type: match opt_chars(input.account_type) {
                                        Some(t) => Some(t),
                                        None => match defaults {
                                            Some(d) => Some(d.account_type),
                                            None => None,
                                        },
                                    },
                                    imap_host: edited_imap_host(opt_chars(input.imap_host), defaults),
                                    imap_port: match input.imap_port {
                                        Some(p) => Some(p),
                                        None => match defaults {
                                            Some(d) => Some(d.default_imap_port),
                                            None => None,
                                        },
                                    },
                                    proxy_url,
                                    fallback_proxy_url_1: fallback_1,
                                    fallback_proxy_url_2: fallback_2,
                                },
                            ),
                        },
                    },
                }
            },
        },
    }
}

fn opt_as_str(v: &Option<String>) -> (r: Option<&str>)
    ensures
        opt_str_view(r) == opt_chars(*v),
{
    match v {
        Some(s) => Some(s.as_str()),
        None => None,
    }
}

fn copy_opt(v: &Option<String>) -> (r: Option<String>)
    ensures
        opt_chars(r) == opt_chars(*v),
{
    match v {
        Some(s) => Some(string_of(&chars_of(s.as_str()))),
        None => None,
    }
}

/// Resolves an account edit into the values the store writes.
pub fn plan_account_update(input: &UpdateAccountInput) -> (r: AppResult<AccountUpdate>)
    ensures
        match account_update(*input) {
            Ok(u) => r matches Ok(x) && x@ == u,
            Err(m) => r matches Err(e) && is_invalid_input(e, m),
        },
{
    let email = match checked_email(input.email.as_str(), "account email is invalid") {
        Ok(e) => e,
        Err(e) => {
            return Err(e);
        },
    };
    let provider: Option<String> = match &input.provider {
        None => None,
        Some(v) => {
            let t = trim_str(v.as_str());
            if t.len() == 0 {
                None
            } else {
                let ts = string_of(&t);
                match normalize_mail_provider_id(ts.as_str()) {
                    Some(id) => Some(string_of(&chars_of(id))),
                    None => {
                        let mut m = chars_of("unsupported mail provider: ");
                        append_chars(&mut m, &t);
                        return Err(invalid_input_chars(&m));
                    },
                }
            }
        },
    };
    assert(requested_provider(opt_chars(input.provider)) == Ok::<Option<Seq<char>>, Seq<char>>(
        opt_chars(provider),
    ));
    let defaults = match &provider {
        Some(id) => mail_provider_definition(id.as_str()),
        None => None,
    };
    let ghost dv: Option<ProviderSpec> = match &defaults {
        Some(d) => Some(d@),
        None => None,
    };
    assert(dv == provider_defaults(opt_chars(provider)));
    let account_type = match &input.account_type {
        Some(t) => Some(string_of(&chars_of(t.as_str()))),
        None => match &defaults {
            Some(d) => Some(string_of(&chars_of(d.account_type))),
            None => None,
        },
    };
    let given_host = match &input.imap_host {
        Some(h) => trim_str(h.as_str()).len() > 0,
        None => false,
    };
    let default_host = match &defaults {
        Some(d) => chars_of(d.default_imap_host).len() > 0,
        None => false,
    };
    let imap_host = if given_host {
        copy_opt(&input.imap_host)
    } else if default_host {
        match &defaults {
            Some(d) => Some(string_of(&chars_of(d.default_imap_host))),
            None => None,
        }
    } else {
        copy_opt(&input.imap_host)
    };
    let imap_port = match input.imap_port {
        Some(p) => Some(p),
        None => match &defaults {
            Some(d) => Some(d.default_imap_port),
            None => None,
        },
    };
    let proxy_url = match normalize_proxy_option(opt_as_str(&input.proxy_url)) {
        Ok(p) => p,
        Err(e) => {
            return Err(e);
        },
    };
    let fallback_proxy_url_1 = match normalize_proxy_option(opt_as_str(&input.fallback_proxy_url_1)) {
        Ok(p) => p,
        Err(e) => {
            return Err(e);
        },
    };
    let fallback_proxy_url_2 = match normalize_proxy_option(opt_as_str(&input.fallback_proxy_url_2)) {
        Ok(p) => p,
        Err(e) => {
            return Err(e);
        },
    };
    let mail_retention_days = match input.mail_retention_days {
        Some(d) => Some(
            if d < 1 {
                1
            } else if d > 3650 {
                3650
            } else {
                d
            },
        ),
        None => None,
    };
    let ghost defaults_v = provider_defaults(opt_chars(provider));
    assert(opt_chars(account_type) == match opt_chars(input.account_type) {
        Some(t) => Some(t),
        None => match defaults_v {
            Some(d) => Some(d.account_type),
            None => None,
        },
    });
    assert(opt_chars(imap_host) == edited_imap_host(opt_chars(input.imap_host), defaults_v));
    assert(mail_retention_days == retention_days(input.mail_retention_days));
    assert(opt_chars(proxy_url) == proxy_option(opt_chars(input.proxy_url))->0);
    Ok(
        AccountUpdate {
            email,
            mail_retention_days,
            provider,
            account_type,
            imap_host,
            imap_port,
            proxy_url,
            fallback_proxy_url_1,
            fallback_proxy_url_2,
        },
    )
}

// ---------------------------------------------------------------------------
// Saving OAuth accounts
// ---------------------------------------------------------------------------

/// An optional text when it is not blank.
pub open spec fn nonblank(v: Option<Seq<char>>) -> Option<Seq<char>> {
    match v {
        Some(s) => if trim(s).len() > 0 {
            Some(s)
        } else {
            None
        },
        None => None,
    }
}

/// Where the refresh token of an OAuth account comes from: one given with
/// the request, or the exchange of an authorization code or callback URL.
#[derive(Debug, Clone)]
pub enum OAuthTokenSource {
    RefreshToken(String),
    Exchange(String),
}

/// An OAuth account save as the store performs it.
#[derive(Debug, Clone)]
pub struct OAuthSavePlan {
    pub email: String,
    pub client_id: String,
    pub provider: String,
    pub account_type: String,
    pub remark: String,
    pub token: OAuthTokenSource,
}

pub struct OAuthSaveSpec {
    pub email: Seq<char>,
    pub client_id: Seq<char>,
    pub provider: Seq<char>,
    pub account_type: Seq<char>,
    pub remark: Seq<char>,
    /// `Ok` holds a given refresh token, `Err` what to exchange for one.
    pub token: Result<Seq<char>, Seq<char>>,
}

impl View for OAuthSavePlan {
    type V = OAuthSaveSpec;

    open spec fn view(&self) -> OAuthSaveSpec {
        OAuthSaveSpec {
            email: self.email@,
            client_id: self.client_id@,
            provider: self.provider@,
            account_type: self.account_type@,
            remark: self.remark@,
            token: match self.token {
                OAuthTokenSource::RefreshToken(t) => Ok(t@),
                OAuthTokenSource::Exchange(c) => Err(c@),
            },
        }
    }
}

/// An OAuth account save: the email must hold an `@`, the client id must not
/// be blank, the provider must be Graph or IMAP (Graph when none is named),
/// and a refresh token or a callback must be given, refused in that order.
/// A given refresh token is trimmed; the callback is handed on as given.
pub open spec fn oauth_save(input: OAuthSaveAccountInput) -> Result<OAuthSaveSpec, Seq<char>> {
    match normalized_email(input.email@) {
        None => Err("account email is required"@),
        Some(email) => if trim(input.client_id@).len() == 0 {
            Err("OAuth client id is required"@)
        } else {
            match oauth_provider_request(text_or_empty(input.provider)) {
                Err(m) => Err(m),
                Ok(requested) => {
                    let provider = match requested {
                        Some(p) => p,
                        None => "graph"@,
                    };
                    let token = match nonblank(opt_chars(input.refresh_token)) {
                        Some(t) => Some(Ok(trim(t))),
                        None => match nonblank(opt_chars(input.code_or_url)) {
                            Some(c) => Some(Err(c)),
                            None => None,
                        },
                    };
                    match token {
                        None => Err("OAuth callback URL is required"@),
                        Some(token) => Ok(
                            OAuthSaveSpec {
                                email,
                                client_id: trim(input.client_id@),
                                provider,
                                account_type: oauth_account_kind(provider),
                                remark: text_or_empty(input.remark),
                                token,
                            },
                        ),
                    }
                },
            }
        },
    }
}

/// The provider a code exchange is for: the requested one; when none is
/// requested, the one stored for the account being authorised (Graph when
/// that names none), and Graph when there is no such account.
pub open spec fn exchange_provider(requested: Seq<char>, stored: Option<Seq<char>>) -> Result<
    Seq<char>,
    Seq<char>,
> {
    match oauth_provider_request(requested) {
        Err(m) => Err(m),
        Ok(Some(p)) => Ok(p),
        Ok(None) => match stored {
            None => Ok("graph"@),
            Some(s) => match oauth_provider_request(s) {
                Err(m) => Err(m),
                Ok(Some(p)) => Ok(p),
                Ok(None) => Ok("graph"@),
            },
        },
    }
}

/// Settles the provider of a code exchange from the requested provider and
/// the provider stored for the account, if an account is named.
pub fn oauth_exchange_provider(requested: Option<&str>, stored: Option<&str>) -> (r: AppResult<
    String,
>)
    ensures
        match exchange_provider(opt_text(requested), opt_str_view(stored)) {
            Ok(p) => r matches Ok(x) && x@ == p,
            Err(m) => r matches Err(e) && is_invalid_input(e, m),
        },
{
    match normalize_oauth_provider(requested) {
        Err(e) => Err(e),
        Ok(Some(p)) => Ok(p),
        Ok(None) => match stored {
            None => Ok("graph".to_string()),
            Some(s) => match normalize_oauth_provider(Some(s)) {
                Err(e) => Err(e),
                Ok(Some(p)) => Ok(p),
                Ok(None) => Ok("graph".to_string()),
            },
        },
    }
}

/// What a code exchange reports: the token's scope and lifetime and a
/// preview of its refresh token; the refresh token itself only when no
/// account stored it.
pub fn oauth_token_result(account_id: Option<i64>, token: OAuthTokenResponse) -> (r: OAuthTokenResult)
    requires
        preview_cuttable(token.refresh_token@),
    ensures
        r.success,
        r.account_id == account_id,
        r.scope@ == token.scope@,
        r.expires_in == token.expires_in,
        r.refresh_token_preview@ == secret_preview(token.refresh_token@),
        account_id is None ==> (r.refresh_token matches Some(t) && t@ == token.refresh_token@),
        account_id is Some ==> r.refresh_token is None,
{
    let preview = preview_secret(token.refresh_token.as_str());
    let refresh_token = match account_id {
        None => Some(token.refresh_token),
        Some(_) => None,
    };
    OAuthTokenResult {
        success: true,
        account_id,
        scope: token.scope,
        expires_in: token.expires_in,
        refresh_token_preview: preview,
        refresh_token,
    }
}

/// Checks an OAuth account save and settles what it stores; the token
/// exchange, where one is needed, is left to the caller.
pub fn plan_oauth_save(input: &OAuthSaveAccountInput) -> (r: AppResult<OAuthSavePlan>)
    ensures
        match oauth_save(*input) {
            Ok(p) => r matches Ok(x) && x@ == p,
            Err(m) => r matches Err(e) && is_invalid_input(e, m),
        },
{
    let email = match checked_email(input.email.as_str(), "account email is required") {
        Ok(e) => e,
        Err(e) => {
            return Err(e);
        },
    };
    let client_id = trim_str(input.client_id.as_str());
    if client_id.len() == 0 {
        return Err(invalid_input("OAuth client id is required"));
    }
    let requested = match normalize_oauth_provider(opt_as_str(&input.provider)) {
        Ok(p) => p,
        Err(e) => {
            return Err(e);
        },
    };
    let provider = match requested {
        Some(p) => p,
        None => string_of(&chars_of("graph")),
    };
    let given = match &input.refresh_token {
        Some(t) => {
            let tt = trim_str(t.as_str());
            if tt.len() > 0 {
                Some(string_of(&tt))
            } else {
                None
            }
        },
        None => None,
    };
    let token = match given {
        Some(t) => OAuthTokenSource::RefreshToken(t),
        None => {
            let code = match &input.code_or_url {
                Some(c) => if trim_str(c.as_str()).len() > 0 {
                    Some(string_of(&chars_of(c.as_str())))
                } else {
                    None
                },
                None => None,
            };
            match code {
                Some(c) => OAuthTokenSource::Exchange(c),
                None => {
                    return Err(invalid_input("OAuth callback URL is required"));
                },
            }
        },
    };
    let remark = match &input.remark {
        Some(m) => string_of(&chars_of(m.as_str())),
        None => String::new(),
    };
    let account_type = oauth_account_type(provider.as_str());
    Ok(
        OAuthSavePlan {
            email,
            client_id: string_of(&client_id),
            provider,
            account_type,
            remark,
            token,
        },
    )
}

/// The refresh token an OAuth exchange returned, refused when blank.
pub fn accepted_refresh_token(token: &str) -> (r: AppResult<String>)
    ensures
        trim(token@).len() > 0 ==> (r matches Ok(x) && x@ == token@),
        trim(token@).len() == 0 ==> (r matches Err(e) && is_invalid_input(
            e,
            "OAuth response did not include a refresh token"@,
        )),
{
    if trim_str(token).len() == 0 {
        return Err(invalid_input("OAuth response did not include a refresh token"));
    }
    Ok(string_of(&chars_of(token)))
}

// ---------------------------------------------------------------------------
// Batch account actions
// ---------------------------------------------------------------------------

pub open spec fn strictly_ascending(s: Seq<i64>) -> bool {
    forall|i: int, j: int| 0 <= i < j < s.len() ==> s[i] < s[j]
}

/// The accounts a batch action names: the positive ids, ascending, each
/// once; refused when none is left.
pub fn batch_account_ids(ids: &[i64]) -> (r: AppResult<Vec<i64>>)
    ensures
        r matches Ok(v) ==> v@.len() > 0 && strictly_ascending(v@) && forall|x: i64|
            v@.contains(x) <==> (x > 0 && ids@.contains(x)),
        r is Err <==> forall|i: int| 0 <= i < ids@.len() ==> ids@[i] <= 0,
        r matches Err(e) ==> is_invalid_input(e, "account_ids are required"@),
{
    let mut out: Vec<i64> = Vec::new();
    let mut i: usize = 0;
    while i < ids.len()
        invariant
            0 <= i <= ids.len(),
            strictly_ascending(out@),
            forall|x: i64| out@.contains(x) <==> (x > 0 && ids@.take(i as int).contains(x)),
        decreases ids.len() - i,
    {
        let x = ids[i];
        let ghost before = out@;
        assert(ids@.take(i + 1) =~= ids@.take(i as int).push(x));
        if x > 0 {
            let mut k: usize = 0;
            while k < out.len() && out[k] < x
                invariant
                    0 <= k <= out.len(),
                    out@ == before,
                    forall|j: int| 0 <= j < k ==> out@[j] < x,
                decreases out.len() - k,
            {
                k = k + 1;
            }
            if k < out.len() && out[k] == x {
                assert(out@.contains(x));
            } else {
                out.insert(k, x);
                assert forall|a: int, b: int| 0 <= a < b < out@.len() implies out@[a] < out@[b] by {
                    if a < k as int && b > k as int {
                        assert(out@[b] == before[b - 1]);
                        assert(before[b - 1] >= x) by {
                            if k < before.len() {
                                assert(before[k as int] > x);
                                if b - 1 > k as int {
                                    assert(before[k as int] < before[b - 1]);
                                }
                            }
                        }
                    }
                    if a == k as int && b > k as int {
                        assert(before[k as int] > x);
                        if b - 1 > k as int {
                            assert(before[k as int] < before[b - 1]);
                        }
                    }
                    if a > k as int {
                        assert(out@[a] == before[a - 1]);
                        assert(out@[b] == before[b - 1]);
                    }
                }
                assert forall|y: i64| out@.contains(y) <==> (y > 0 && ids@.take(i as int).contains(y) || y == x) by {
                    if out@.contains(y) {
                        let j = choose|j: int| 0 <= j < out@.len() && out@[j] == y;
                        if j < k as int {
                            assert(before[j] == y);
                        } else if j > k as int {
                            assert(before[j - 1] == y);
                        }
                    }
                    if before.contains(y) {
                        let j = choose|j: int| 0 <= j < before.len() && before[j] == y;
                        if j < k as int {
                            assert(out@[j] == y);
                        } else {
                            assert(out@[j + 1] == y);
                        }
                    }
                    assert(out@[k as int] == x);
                }
            }
        }
        assert forall|y: i64| out@.contains(y) <==> (y > 0 && ids@.take(i + 1).contains(y)) by {
            vstd::seq_lib::lemma_seq_contains_after_push(ids@.take(i as int), x, y);
        }
        i = i + 1;
    }
    assert(ids@.take(ids.len() as int) =~= ids@);
    if out.len() == 0 {
        assert forall|i: int| 0 <= i < ids@.len() implies ids@[i] <= 0 by {
            if ids@[i] > 0 {
                assert(ids@.take(ids.len() as int).contains(ids@[i]));
                assert(out@.contains(ids@[i]));
            }
        }
        return Err(invalid_input("account_ids are required"));
    }
    assert(out@.contains(out@[0]));
    Ok(out)
}

/// The actions a batch can take on accounts.
#[derive(Debug, Clone, Copy, PartialEq, Eq, Structural)]
pub enum BatchAction {
    Delete,
    MoveGroup,
}

/// The action a batch names (trimmed), if it names one.
pub open spec fn batch_action_of(action: Seq<char>) -> Option<BatchAction> {
    if trim(action) == "delete"@ {
        Some(BatchAction::Delete)
    } else if trim(action) == "move_group"@ {
        Some(BatchAction::MoveGroup)
    } else {
        None
    }
}

pub fn batch_action(action: &str) -> (r: AppResult<BatchAction>)
    ensures
        match batch_action_of(action@) {
            Some(a) => r matches Ok(x) && x == a,
            None => r matches Err(e) && is_invalid_input(e, "unsupported batch action"@),
        },
{
    let t = trim_str(action);
    if eq_str(&t, "delete") {
        Ok(BatchAction::Delete)
    } else if eq_str(&t, "move_group") {
        Ok(BatchAction::MoveGroup)
    } else {
        Err(invalid_input("unsupported batch action"))
    }
}

/// The report of a batch action: successful when no requested account was
/// missing.
pub fn batch_result(action: &str, affected: usize, missing: usize) -> (r: JobResult)
    ensures
        r.success == (missing == 0),
        r.message@ == "Batch "@ + trim(action@) + " processed "@ + decimal(affected as nat)
            + " account(s)"@,
        r.refreshed == affected,
        r.failed == missing,
{
    let mut m = chars_of("Batch ");
    append_chars(&mut m, &trim_str(action));
    append_str(&mut m, " processed ");
    append_chars(&mut m, &decimal_u64(affected as u64));
    append_str(&mut m, " account(s)");
    JobResult { success: missing == 0, message: string_of(&m), refreshed: affected, failed: missing }
}

// ---------------------------------------------------------------------------
// Clearing local data
// ---------------------------------------------------------------------------

pub const CLEAR_LOCAL_DATA_CONFIRMATION: &'static str = "CLEAR LOCAL DATA";

/// What a cleanup removes.
#[derive(Debug, Clone, Copy, PartialEq, Eq, Structural)]
pub struct CleanupPlan {
    pub mail_cache: bool,
    pub attachments: bool,
    pub exports: bool,
}

/// A cleanup must be confirmed by typing the phrase, and must name at least
/// one kind of local data.
pub fn plan_local_cleanup(input: &ClearLocalDataInput) -> (r: AppResult<CleanupPlan>)
    ensures
        trim(input.confirm@) != CLEAR_LOCAL_DATA_CONFIRMATION@ ==> (r matches Err(e)
            && is_invalid_input(e, "type CLEAR LOCAL DATA to confirm local data cleanup"@)),
        trim(input.confirm@) == CLEAR_LOCAL_DATA_CONFIRMATION@ ==> {
            let mail = input.clear_mail_cache == Some(true);
            let attachments = input.clear_attachments == Some(true);
            let exports = input.clear_exports == Some(true);
            if mail || attachments || exports {
                r == Ok::<CleanupPlan, AppError>(
                    CleanupPlan { mail_cache: mail, attachments, exports },
                )
            } else {
                r matches Err(e) && is_invalid_input(
                    e,
                    "select at least one local data category to clear"@,
                )
            }
        },
{
    if !eq_str(&trim_str(input.confirm.as_str()), CLEAR_LOCAL_DATA_CONFIRMATION) {
        return Err(invalid_input("type CLEAR LOCAL DATA to confirm local data cleanup"));
    }
    let plan = CleanupPlan {
        mail_cache: input.clear_mail_cache == Some(true),
        attachments: input.clear_attachments == Some(true),
        exports: input.clear_exports == Some(true),
    };
    if !plan.mail_cache && !plan.attachments && !plan.exports {
        return Err(invalid_input("select at least one local data category to clear"));
    }
    Ok(plan)
}

/// The report of a finished cleanup.
pub fn cleanup_result(deleted_messages: i64, deleted_files: usize, freed_bytes: i64) -> (r:
    ClearLocalDataResult)
    ensures
        r.success,
        r.message@ == "Cleared local data: "@ + crate::text::decimal_int(deleted_messages as int)
            + " mail message(s), "@ + decimal(deleted_files as nat) + " file(s)"@,
        r.deleted_messages == deleted_messages,
        r.deleted_files == deleted_files,
        r.freed_bytes == freed_bytes,
{
    let mut m = chars_of("Cleared local data: ");
    append_chars(&mut m, &crate::text::decimal_i64(deleted_messages));
    append_str(&mut m, " mail message(s), ");
    append_chars(&mut m, &decimal_u64(deleted_files as u64));
    append_str(&mut m, " file(s)");
    ClearLocalDataResult {
        success: true,
        message: string_of(&m),
        deleted_messages,
        deleted_files,
        freed_bytes,
    }
}

} // verus!
