//! Temporary mailboxes (GPTMail, DuckMail and Cloudflare Worker channels):
//! the credentials kept for them and the checks made before any request.
use crate::error::{invalid_input, invalid_input_chars, is_invalid_input, AppError, AppResult};
use crate::import::{lowercase, to_lowercase_string};
use crate::crypto::{lower_hex, sha256_digest, sha256_hex};
use crate::mime::{bodies, mime_bodies, parse_mime, parsed_mime, MimeMessage};
use crate::providers::views_s;
use vstd::utf8::encode_utf8;
use crate::text::{
    append_chars, append_str, chars_of, contains_char, ends_with, eq_chars, eq_ignore_case,
    eq_ignore_case_str, eq_str, find_char, find_char_exec, is_ascii_alnum, is_ascii_alphanumeric,
    is_whitespace, is_ws, lemma_find_char, opt_chars, opt_str_view, or_empty, split, split_exec,
    starts_with, starts_with_str, string_of, strip_trailing, strip_trailing_exec, subrange,
    text_or_empty, trim, trim_chars, trim_str, utf8_byte_len, utf8_len_seq, views,
};
use vstd::prelude::*;

verus! {

broadcast use vstd::string::group_string_axioms;

/// The Worker of a Cloudflare temporary-mail channel.
#[derive(Debug, Clone)]
pub struct CloudflareChannelCredentials {
    pub worker_url: String,
    pub admin_password: String,
    pub domains: Vec<String>,
}

/// What reaching a temporary mailbox takes.
#[derive(Debug, Clone)]
pub struct TempMailboxCredentials {
    pub email: String,
    pub provider: String,
    pub base_url: String,
    pub api_key: String,
    pub token: String,
    pub account_id: String,
    pub cloudflare_channel: Option<CloudflareChannelCredentials>,
}

/// A mailbox a provider has just created.
#[derive(Debug, Clone)]
pub struct CreatedTempMailbox {
    pub email: String,
    pub provider: String,
    pub base_url: String,
    pub api_key: String,
    pub password: String,
    pub token: String,
    pub account_id: String,
}

/// A request for a new temporary mailbox.
#[derive(Debug, Clone)]
pub struct GenerateTempEmailInput {
    pub provider: String,
    pub base_url: Option<String>,
    pub api_key: Option<String>,
    pub prefix: Option<String>,
    pub domain: Option<String>,
    pub username: Option<String>,
    pub password: Option<String>,
    pub cloudflare_channel_id: Option<i64>,
}

pub const DEFAULT_GPTMAIL_URL: &'static str = "https://mail.chatgpt.org.uk";

pub const DEFAULT_DUCKMAIL_URL: &'static str = "https://api.duckmail.sbs";

/// A service URL: the given one or the default, trimmed, without trailing
/// slashes.
pub open spec fn service_url(value: Option<Seq<char>>, fallback: Seq<char>) -> Seq<char> {
    strip_trailing(
        trim(
            match value {
                Some(v) => v,
                None => fallback,
            },
        ),
        '/',
    )
}

pub fn normalized_url(value: Option<String>, fallback: &str) -> (r: String)
    ensures
        r@ == service_url(opt_chars(value), fallback@),
{
    let v = match value {
        Some(v) => chars_of(v.as_str()),
        None => chars_of(fallback),
    };
    string_of(&strip_trailing_exec(&trim_chars(&v), '/'))
}

// ---------------------------------------------------------------------------
// Addresses and domains
// ---------------------------------------------------------------------------

/// The non-blank trimmed items of a comma-separated list.
pub open spec fn listed_items(pieces: Seq<Seq<char>>) -> Seq<Seq<char>>
    decreases pieces.len(),
{
    if pieces.len() == 0 {
        Seq::empty()
    } else if trim(pieces.last()).len() > 0 {
        listed_items(pieces.drop_last()).push(trim(pieces.last()))
    } else {
        listed_items(pieces.drop_last())
    }
}

pub open spec fn domain_list(value: Seq<char>) -> Seq<Seq<char>> {
    listed_items(split(value, seq![',']))
}

pub fn split_domains(value: &str) -> (r: Vec<String>)
    ensures
        views_s(r@) == domain_list(value@),
{
    let mut sep: Vec<char> = Vec::new();
    sep.push(',');
    let pieces = split_exec(&chars_of(value), &sep);
    assert(sep@ =~= seq![',']);
    let ghost ps = views(pieces@);
    let mut out: Vec<String> = Vec::new();
    let mut i: usize = 0;
    while i < pieces.len()
        invariant
            0 <= i <= pieces.len(),
            ps == views(pieces@),
            views_s(out@) == listed_items(ps.take(i as int)),
        decreases pieces.len() - i,
    {
        let ghost t = ps.take(i + 1);
        assert(t.drop_last() =~= ps.take(i as int));
        let item = trim_chars(&pieces[i]);
        if item.len() > 0 {
            let ghost before = views_s(out@);
            out.push(string_of(&item));
            assert(views_s(out@) =~= before.push(item@));
        }
        i = i + 1;
    }
    assert(ps.take(pieces.len() as int) =~= ps);
    out
}

/// A plausible single address: exactly one `@`, something before it, a dot
/// after it, and no whitespace (after trimming).
pub open spec fn valid_email_address(value: Seq<char>) -> bool {
    let v = trim(value);
    let parts = split(v, seq!['@']);
    &&& parts.len() == 2
    &&& parts[0].len() > 0
    &&& parts[1].contains('.')
    &&& !(exists|i: int| 0 <= i < v.len() && is_ws(#[trigger] v[i]))
}

pub fn is_valid_email_address(value: &str) -> (r: bool)
    ensures
        r == valid_email_address(value@),
{
    let v = trim_str(value);
    let mut at: Vec<char> = Vec::new();
    at.push('@');
    assert(at@ =~= seq!['@']);
    let parts = split_exec(&v, &at);
    if parts.len() != 2 {
        return false;
    }
    assert(views(parts@)[0] == parts@[0]@);
    assert(views(parts@)[1] == parts@[1]@);
    if parts[0].len() == 0 || !contains_char(&parts[1], '.') {
        return false;
    }
    let mut i: usize = 0;
    while i < v.len()
        invariant
            0 <= i <= v.len(),
            v@ == trim(value@),
            forall|j: int| 0 <= j < i ==> !is_ws(#[trigger] v@[j]),
        decreases v.len() - i,
    {
        if is_whitespace(v[i]) {
            assert(is_ws(v@[i as int]));
            return false;
        }
        i = i + 1;
    }
    true
}

/// What a line of a temporary-mail import means: a `[cloudflare]` header
/// (`Some(None)`), a `[cloudflare:Name]` header naming a channel
/// (`Some(Some(name))`), or no header (`None`).  The word `cloudflare` is
/// matched ignoring ASCII case.
pub open spec fn import_header(value: Seq<char>) -> Option<Option<Seq<char>>> {
    let t = trim(value);
    if !(starts_with(t, seq!['[']) && ends_with(t, seq![']'])) {
        None
    } else {
        let inner = t.subrange(1, t.len() - 1);
        if eq_ignore_case(inner, "cloudflare"@) {
            Some(None)
        } else {
            match find_char(inner, ':') {
                None => None,
                Some(k) => if eq_ignore_case(inner.take(k), "cloudflare"@) {
                    Some(Some(trim(inner.skip(k + 1))))
                } else {
                    None
                },
            }
        }
    }
}

pub fn cloudflare_import_header(value: &str) -> (r: Option<Option<String>>)
    ensures
        match import_header(value@) {
            None => r is None,
            Some(None) => r matches Some(None),
            Some(Some(n)) => r matches Some(Some(x)) && x@ == n,
        },
{
    let t = trim_str(value);
    let mut open: Vec<char> = Vec::new();
    open.push('[');
    let mut close: Vec<char> = Vec::new();
    close.push(']');
    assert(open@ =~= seq!['[']);
    assert(close@ =~= seq![']']);
    if !(crate::text::starts_with_exec(&t, &open) && crate::text::ends_with_exec(&t, &close)) {
        return None;
    }
    assert(t@.take(1)[0] == '[');
    assert(t@.skip(t@.len() - 1)[0] == ']');
    assert(t@[0] == '[');
    assert(t@[t@.len() - 1] == ']');
    assert(t.len() >= 2);
    let inner = subrange(&t, 1, t.len() - 1);
    if eq_ignore_case_str(&inner, "cloudflare") {
        return Some(None);
    }
    proof {
        lemma_find_char(inner@, ':');
    }
    match find_char_exec(&inner, ':') {
        None => None,
        Some(k) => {
            let prefix = subrange(&inner, 0, k);
            assert(prefix@ =~= inner@.take(k as int));
            if eq_ignore_case_str(&prefix, "cloudflare") {
                let name = subrange(&inner, k + 1, inner.len());
                assert(name@ =~= inner@.skip(k + 1));
                Some(Some(string_of(&trim_chars(&name))))
            } else {
                None
            }
        },
    }
}

// ---------------------------------------------------------------------------
// Worker URLs
// ---------------------------------------------------------------------------

/// The scheme of a URL as `url::Url::parse` reads it, or `None` when the
/// text is not a URL.
pub uninterp spec fn url_scheme(text: Seq<char>) -> Option<Seq<char>>;

/// `reqwest::Url::parse` (the `url` crate) and the scheme of its result.
#[verifier::external_body]
fn parse_url_scheme(text: &str) -> (r: Option<String>)
    ensures
        opt_chars(r) == url_scheme(text@),
{
    match reqwest::Url::parse(text) {
        Ok(url) => Some(url.scheme().to_string()),
        Err(_) => None,
    }
}

/// A Worker URL as stored: trimmed, `https://` added when no HTTP scheme is
/// written, trailing slashes removed; it must parse as an HTTP(S) URL.
pub open spec fn worker_url(value: Seq<char>) -> Result<Seq<char>, Seq<char>> {
    let raw = trim(value);
    let candidate = if starts_with(raw, "http://"@) || starts_with(raw, "https://"@) {
        raw
    } else {
        "https://"@ + raw
    };
    match url_scheme(candidate) {
        None => Err("Cloudflare Worker URL is invalid"@),
        Some(scheme) => if scheme != "https"@ && scheme != "http"@ {
            Err("Cloudflare Worker URL must use HTTP or HTTPS"@)
        } else {
            Ok(strip_trailing(candidate, '/'))
        },
    }
}

pub fn normalize_worker_url(value: &str) -> (r: AppResult<String>)
    ensures
        match worker_url(value@) {
            Ok(u) => r matches Ok(x) && x@ == u,
            Err(m) => r matches Err(e) && is_invalid_input(e, m),
        },
{
    let raw = trim_str(value);
    let candidate = if starts_with_str(&raw, "http://") || starts_with_str(&raw, "https://") {
        raw
    } else {
        let mut c = chars_of("https://");
        append_chars(&mut c, &raw);
        c
    };
    let cs = string_of(&candidate);
    match parse_url_scheme(cs.as_str()) {
        None => Err(invalid_input("Cloudflare Worker URL is invalid")),
        Some(scheme) => {
            let sc = chars_of(scheme.as_str());
            if !eq_str(&sc, "https") && !eq_str(&sc, "http") {
                return Err(invalid_input("Cloudflare Worker URL must use HTTP or HTTPS"));
            }
            Ok(string_of(&strip_trailing_exec(&candidate, '/')))
        },
    }
}

// ---------------------------------------------------------------------------
// Batch user names
// ---------------------------------------------------------------------------

/// A fresh random identifier in simple form
/// (`uuid::Uuid::new_v4().simple().to_string()`): 32 lower-case hexadecimal
/// digits.
#[verifier::external_body]
fn new_simple_uuid() -> (r: String)
    ensures
        r@.len() == 32,
        forall|i: int|
            0 <= i < 32 ==> ('0' <= #[trigger] r@[i] <= '9' || 'a' <= r@[i] <= 'f'),
{
    uuid::Uuid::new_v4().simple().to_string()
}

/// A generated mailbox name: `mail` and ten random hexadecimal digits.
pub open spec fn is_generated_name(name: Seq<char>) -> bool {
    &&& name.len() == 14
    &&& name.take(4) == "mail"@
    &&& forall|i: int| 4 <= i < 14 ==> ('0' <= #[trigger] name[i] <= '9' || 'a' <= name[i] <= 'f')
}

/// The mailbox name made from a random identifier: `mail` and its first
/// ten characters.
pub fn mailbox_name_from(u: &str) -> (r: String)
    requires
        u@.len() >= 10,
    ensures
        r@ == "mail"@ + u@.take(10),
{
    let v = chars_of(u);
    let mut out = chars_of("mail");
    let ten = subrange(&v, 0, 10);
    append_chars(&mut out, &ten);
    assert(v@.subrange(0, 10) =~= u@.take(10));
    string_of(&out)
}

/// A new random mailbox name: `mail` and the first ten digits of a fresh
/// simple-form UUID.
pub fn generated_mailbox_name() -> (r: String)
    ensures
        is_generated_name(r@),
        exists|u: Seq<char>| u.len() == 32 && r@ == "mail"@ + u.take(10),
{
    let u = new_simple_uuid();
    let r = mailbox_name_from(u.as_str());
    proof {
        reveal_strlit("mail");
        assert(r@.take(4) =~= "mail"@);
        assert forall|i: int| 4 <= i < 14 implies ('0' <= #[trigger] r@[i] <= '9' || 'a'
            <= r@[i] <= 'f') by {
            assert(r@[i] == u@[i - 4]);
        }
    }
    r
}

/// The characters of `s` that are ASCII letters or digits, in order.
pub open spec fn ascii_alnum_only(s: Seq<char>) -> Seq<char>
    decreases s.len(),
{
    if s.len() == 0 {
        Seq::empty()
    } else if is_ascii_alnum(s.last()) {
        ascii_alnum_only(s.drop_last()).push(s.last())
    } else {
        ascii_alnum_only(s.drop_last())
    }
}

/// The part of an address before its first `@` (all of it without one).
pub open spec fn local_part(s: Seq<char>) -> Seq<char> {
    match find_char(s, '@') {
        Some(k) => s.take(k),
        None => s,
    }
}

/// The user name a batch entry asks for: the local part of the trimmed
/// entry, lower-cased, reduced to ASCII letters and digits, at most 32.
pub open spec fn batch_username(value: Seq<char>) -> Seq<char> {
    let u = ascii_alnum_only(lowercase(local_part(trim(value))));
    if u.len() <= 32 {
        u
    } else {
        u.take(32)
    }
}

/// The names of a batch of entries, or the first problem: an entry whose
/// name is shorter than three characters, a name given twice, or a batch
/// of the wrong size.
pub open spec fn batch_usernames(values: Seq<Seq<char>>, count: nat) -> Result<
    Seq<Seq<char>>,
    Seq<char>,
> {
    match batch_names_prefix(values, values.len() as int) {
        Err(m) => Err(m),
        Ok(names) => if names.len() != count {
            Err("username count must equal requested count ("@ + crate::text::decimal(count)
                + ")"@)
        } else {
            Ok(names)
        },
    }
}

/// The names of the first `k` entries, or the first problem among them.
pub open spec fn batch_names_prefix(values: Seq<Seq<char>>, k: int) -> Result<
    Seq<Seq<char>>,
    Seq<char>,
>
    decreases k,
{
    if k <= 0 {
        Ok(Seq::empty())
    } else {
        match batch_names_prefix(values, k - 1) {
            Err(m) => Err(m),
            Ok(names) => {
                let name = batch_username(values[k - 1]);
                if name.len() < 3 {
                    Err("invalid batch username: "@ + values[k - 1])
                } else if names.contains(name) {
                    Err("duplicate batch username: "@ + name)
                } else {
                    Ok(names.push(name))
                }
            },
        }
    }
}

pub proof fn lemma_batch_error_sticks(values: Seq<Seq<char>>, k: int, n: int)
    requires
        0 <= k <= n,
        batch_names_prefix(values, k) is Err,
    ensures
        batch_names_prefix(values, n) == batch_names_prefix(values, k),
    decreases n - k,
{
    if k < n {
        lemma_batch_error_sticks(values, k, n - 1);
    }
}

fn batch_username_exec(value: &String) -> (r: Vec<char>)
    ensures
        r@ == batch_username(value@),
{
    let t = trim_str(value.as_str());
    proof {
        lemma_find_char(t@, '@');
    }
    let local = match find_char_exec(&t, '@') {
        Some(k) => subrange(&t, 0, k),
        None => subrange(&t, 0, t.len()),
    };
    assert(local@ =~= local_part(trim(value@)));
    let lowered = chars_of(to_lowercase_string(string_of(&local).as_str()).as_str());
    let mut u: Vec<char> = Vec::new();
    let mut i: usize = 0;
    while i < lowered.len()
        invariant
            0 <= i <= lowered.len(),
            u@ == ascii_alnum_only(lowered@.take(i as int)),
        decreases lowered.len() - i,
    {
        let ghost t2 = lowered@.take(i + 1);
        assert(t2.drop_last() =~= lowered@.take(i as int));
        if is_ascii_alphanumeric(lowered[i]) {
            u.push(lowered[i]);
        }
        i = i + 1;
    }
    assert(lowered@.take(lowered.len() as int) =~= lowered@);
    if u.len() <= 32 {
        u
    } else {
        let r = subrange(&u, 0, 32);
        assert(r@ =~= u@.take(32));
        r
    }
}

fn names_contain(names: &Vec<String>, name: &Vec<char>) -> (r: bool)
    ensures
        r == views_s(names@).contains(name@),
{
    let mut i: usize = 0;
    while i < names.len()
        invariant
            0 <= i <= names.len(),
            forall|k: int| 0 <= k < i ==> views_s(names@)[k] != name@,
        decreases names.len() - i,
    {
        if eq_chars(&chars_of(names[i].as_str()), name) {
            assert(views_s(names@)[i as int] == name@);
            return true;
        }
        i = i + 1;
    }
    false
}

/// The user names for a batch of `count` new mailboxes: random ones when no
/// names are given, otherwise the checked names.
pub fn normalize_batch_usernames(values: Option<Vec<String>>, count: usize) -> (r: AppResult<
    Vec<String>,
>)
    ensures
        (values is None || values->0@.len() == 0) ==> (r matches Ok(v) && v@.len() == count
            && forall|i: int| 0 <= i < count ==> is_generated_name(#[trigger] v@[i]@)),
        (values is Some && values->0@.len() > 0) ==> match batch_usernames(
            views_s(values->0@),
            count as nat,
        ) {
            Ok(names) => r matches Ok(v) && views_s(v@) == names,
            Err(m) => r matches Err(e) && is_invalid_input(e, m),
        },
{
    let ghost gv = values;
    let given = match values {
        Some(vs) => if vs.len() > 0 {
            vs
        } else {
            Vec::new()
        },
        None => Vec::new(),
    };
    if given.len() == 0 {
        let mut names: Vec<String> = Vec::new();
        let mut i: usize = 0;
        while i < count
            invariant
                0 <= i <= count,
                names@.len() == i,
                forall|j: int| 0 <= j < i ==> is_generated_name(#[trigger] names@[j]@),
            decreases count - i,
        {
            names.push(generated_mailbox_name());
            i = i + 1;
        }
        return Ok(names);
    }
    assert(gv is Some && gv->0@ == given@);
    let ghost vs = views_s(given@);
    let mut names: Vec<String> = Vec::new();
    assert(views_s(names@) =~= Seq::<Seq<char>>::empty());
    let mut i: usize = 0;
    while i < given.len()
        invariant
            0 <= i <= given.len(),
            gv == values,
            gv is Some && gv->0@ == given@,
            given@.len() > 0,
            vs == views_s(given@),
            batch_names_prefix(vs, i as int) == Ok::<Seq<Seq<char>>, Seq<char>>(views_s(names@)),
        decreases given.len() - i,
    {
        let name = batch_username_exec(&given[i]);
        assert(vs[i as int] == given@[i as int]@);
        if name.len() < 3 {
            let mut m = chars_of("invalid batch username: ");
            append_str(&mut m, given[i].as_str());
            proof {
                lemma_batch_error_sticks(vs, i + 1, vs.len() as int);
            }
            return Err(invalid_input_chars(&m));
        }
        if names_contain(&names, &name) {
            let mut m = chars_of("duplicate batch username: ");
            append_chars(&mut m, &name);
            proof {
                lemma_batch_error_sticks(vs, i + 1, vs.len() as int);
            }
            return Err(invalid_input_chars(&m));
        }
        let ghost before = views_s(names@);
        names.push(string_of(&name));
        assert(views_s(names@) =~= before.push(name@));
        i = i + 1;
    }
    if names.len() != count {
        let mut m = chars_of("username count must equal requested count (");
        append_chars(&mut m, &crate::text::decimal_u64(count as u64));
        append_str(&mut m, ")");
        return Err(invalid_input_chars(&m));
    }
    Ok(names)
}


// ---------------------------------------------------------------------------
// New mailboxes
// ---------------------------------------------------------------------------

/// The temporary-mail services.
#[derive(Debug, Clone, Copy, PartialEq, Eq, Structural)]
pub enum TempMailService {
    GptMail,
    DuckMail,
    Cloudflare,
}

/// The service a request names (trimmed, lower-cased), if it names one.
pub open spec fn temp_mail_service(provider: Seq<char>) -> Option<TempMailService> {
    let p = lowercase(trim(provider));
    if p == "gptmail"@ {
        Some(TempMailService::GptMail)
    } else if p == "duckmail"@ {
        Some(TempMailService::DuckMail)
    } else if p == "cloudflare"@ {
        Some(TempMailService::Cloudflare)
    } else {
        None
    }
}

pub fn temp_mail_provider(provider: &str) -> (r: AppResult<TempMailService>)
    ensures
        match temp_mail_service(provider@) {
            Some(s) => r matches Ok(x) && x == s,
            None => r matches Err(e) && is_invalid_input(
                e,
                "provider must be gptmail, duckmail, or cloudflare"@,
            ),
        },
{
    let t = string_of(&trim_str(provider));
    let p = chars_of(to_lowercase_string(t.as_str()).as_str());
    if eq_str(&p, "gptmail") {
        Ok(TempMailService::GptMail)
    } else if eq_str(&p, "duckmail") {
        Ok(TempMailService::DuckMail)
    } else if eq_str(&p, "cloudflare") {
        Ok(TempMailService::Cloudflare)
    } else {
        Err(invalid_input("provider must be gptmail, duckmail, or cloudflare"))
    }
}

/// What creating a mailbox asks of its service.
#[derive(Debug, Clone)]
pub enum TempMailboxPlan {
    /// GPTMail: a GET when neither prefix nor domain is given, else a POST
    /// carrying them.
    GptMail { url: String, api_key: String, prefix: Option<String>, domain: Option<String>, post: bool },
    /// DuckMail: an account for the address, then a token.
    DuckMail { url: String, email: String, password: String, api_key: String },
    /// A Cloudflare Worker address under a user name and a channel domain.
    Cloudflare { username: String, domain: String },
}

/// A DuckMail request is complete with a user name of at least 3 bytes, a
/// domain, and a password of at least 6 bytes.
pub open spec fn duckmail_complete(input: GenerateTempEmailInput) -> bool {
    &&& utf8_len_seq(trim(text_or_empty(input.username))) >= 3
    &&& trim(text_or_empty(input.domain)).len() > 0
    &&& utf8_len_seq(text_or_empty(input.password)) >= 6
}

/// A domain as Cloudflare requests name it: trimmed, leading `@` removed,
/// lower-cased.
pub open spec fn domain_text(raw: Seq<char>) -> Seq<char> {
    lowercase(crate::text::strip_leading(trim(raw), '@'))
}

/// The Cloudflare domain a request asks for.
pub open spec fn cloudflare_domain(input: GenerateTempEmailInput) -> Seq<char> {
    domain_text(text_or_empty(input.domain))
}

/// The channel offers the domain (ignoring ASCII case).
pub open spec fn channel_has_domain(channel: CloudflareChannelCredentials, domain: Seq<char>) -> bool {
    exists|i: int| 0 <= i < channel.domains@.len() && eq_ignore_case(#[trigger] channel.domains@[i]@, domain)
}

pub const DUCKMAIL_INCOMPLETE: &'static str = "DuckMail requires a username of at least 3 characters, a domain, and a password of at least 6 characters";

fn opt_clone(v: &Option<String>) -> (r: Option<String>)
    ensures
        opt_chars(r) == opt_chars(*v),
{
    match v {
        Some(s) => Some(string_of(&chars_of(s.as_str()))),
        None => None,
    }
}

fn text_of(v: &Option<String>) -> (r: Vec<char>)
    ensures
        r@ == text_or_empty(*v),
{
    match v {
        Some(s) => chars_of(s.as_str()),
        None => Vec::new(),
    }
}

/// The domain a Cloudflare request names, refused unless the channel offers
/// it (ignoring ASCII case).
fn offered_domain(raw: &str, channel: &CloudflareChannelCredentials) -> (r: AppResult<String>)
    ensures
        channel_has_domain(*channel, domain_text(raw@)) ==> (r matches Ok(d) && d@ == domain_text(
            raw@,
        )),
        !channel_has_domain(*channel, domain_text(raw@)) ==> (r matches Err(e) && is_invalid_input(
            e,
            "selected domain does not belong to this Cloudflare channel"@,
        )),
{
    let stripped = crate::text::strip_leading_exec(&trim_str(raw), '@');
    let domain = to_lowercase_string(string_of(&stripped).as_str());
    let dv = chars_of(domain.as_str());
    let mut found = false;
    let mut i: usize = 0;
    while i < channel.domains.len()
        invariant
            0 <= i <= channel.domains.len(),
            dv@ == domain_text(raw@),
            found <==> exists|j: int| 0 <= j < i && eq_ignore_case(
                #[trigger] channel.domains@[j]@,
                dv@,
            ),
        decreases channel.domains.len() - i,
    {
        let a = crate::text::to_ascii_lower(&chars_of(channel.domains[i].as_str()));
        let b = crate::text::to_ascii_lower(&dv);
        if eq_chars(&a, &b) {
            found = true;
        }
        i = i + 1;
    }
    if !found {
        return Err(invalid_input("selected domain does not belong to this Cloudflare channel"));
    }
    Ok(domain)
}

/// What creating a mailbox for a request asks of its service, or why the
/// request is refused before any service is asked.  GPTMail and DuckMail
/// use the given service URL or their default; the Cloudflare channel must
/// be given and offer the domain; a Cloudflare user name defaults to a new
/// random one.
pub fn plan_temp_mailbox(input: &GenerateTempEmailInput, channel: Option<&CloudflareChannelCredentials>) -> (r:
    AppResult<TempMailboxPlan>)
    ensures
        temp_mail_service(input.provider@) is None ==> (r matches Err(e) && is_invalid_input(
            e,
            "provider must be gptmail, duckmail, or cloudflare"@,
        )),
        temp_mail_service(input.provider@) == Some(TempMailService::GptMail) ==> (r matches Ok(
            TempMailboxPlan::GptMail { url, api_key, prefix, domain, post },
        ) && url@ == service_url(opt_chars(input.base_url), DEFAULT_GPTMAIL_URL@) && api_key@
            == trim(
            match input.api_key {
                Some(k) => k@,
                None => "gpt-test"@,
            },
        ) && opt_chars(prefix) == opt_chars(input.prefix) && opt_chars(domain)
            == opt_chars(input.domain) && post == (trim(text_or_empty(input.prefix)).len() > 0
            || trim(text_or_empty(input.domain)).len() > 0)),
        temp_mail_service(input.provider@) == Some(TempMailService::DuckMail) ==> if duckmail_complete(
            *input,
        ) {
            r matches Ok(TempMailboxPlan::DuckMail { url, email, password, api_key }) && url@
                == service_url(opt_chars(input.base_url), DEFAULT_DUCKMAIL_URL@) && email@
                == trim(text_or_empty(input.username)) + "@"@ + trim(text_or_empty(input.domain))
                && password@ == text_or_empty(input.password) && api_key@ == trim(
                text_or_empty(input.api_key),
            )
        } else {
            r matches Err(e) && is_invalid_input(e, DUCKMAIL_INCOMPLETE@)
        },
        temp_mail_service(input.provider@) == Some(TempMailService::Cloudflare) ==> match channel {
            None => r matches Err(e) && is_invalid_input(e, "Cloudflare channel is required"@),
            Some(c) => if !channel_has_domain(*c, cloudflare_domain(*input)) {
                r matches Err(e) && is_invalid_input(
                    e,
                    "selected domain does not belong to this Cloudflare channel"@,
                )
            } else {
                match (if input.username is Some { input.username } else { input.prefix }) {
                    Some(name) => if utf8_len_seq(trim(name@)) < 3 {
                        r matches Err(e) && is_invalid_input(
                            e,
                            "Cloudflare username must contain at least 3 characters"@,
                        )
                    } else {
                        r matches Ok(TempMailboxPlan::Cloudflare { username, domain }) && username@
                            == trim(name@) && domain@ == cloudflare_domain(*input)
                    },
                    None => r matches Ok(TempMailboxPlan::Cloudflare { username, domain })
                        && is_generated_name(username@) && domain@ == cloudflare_domain(*input),
                }
            },
        },
{
    let service = match temp_mail_provider(input.provider.as_str()) {
        Ok(s) => s,
        Err(e) => {
            return Err(e);
        },
    };
    match service {
        TempMailService::GptMail => {
            let url = normalized_url(opt_clone(&input.base_url), DEFAULT_GPTMAIL_URL);
            let key = match &input.api_key {
                Some(k) => trim_str(k.as_str()),
                None => trim_str("gpt-test"),
            };
            let post = trim_chars(&text_of(&input.prefix)).len() > 0 || trim_chars(
                &text_of(&input.domain),
            ).len() > 0;
            Ok(
                TempMailboxPlan::GptMail {
                    url,
                    api_key: string_of(&key),
                    prefix: opt_clone(&input.prefix),
                    domain: opt_clone(&input.domain),
                    post,
                },
            )
        },
        TempMailService::DuckMail => {
            let url = normalized_url(opt_clone(&input.base_url), DEFAULT_DUCKMAIL_URL);
            let username = trim_chars(&text_of(&input.username));
            let domain = trim_chars(&text_of(&input.domain));
            let password = text_of(&input.password);
            if utf8_byte_len(&username) < 3 || domain.len() == 0 || utf8_byte_len(&password) < 6 {
                return Err(invalid_input(DUCKMAIL_INCOMPLETE));
            }
            let mut email = username;
            email.push('@');
            append_chars(&mut email, &domain);
            proof {
                reveal_strlit("@");
            }
            let api_key = trim_chars(&text_of(&input.api_key));
            Ok(
                TempMailboxPlan::DuckMail {
                    url,
                    email: string_of(&email),
                    password: string_of(&password),
                    api_key: string_of(&api_key),
                },
            )
        },
        TempMailService::Cloudflare => {
            let c = match channel {
                Some(c) => c,
                None => {
                    return Err(invalid_input("Cloudflare channel is required"));
                },
            };
            let domain = match offered_domain(string_of(&text_of(&input.domain)).as_str(), c) {
                Ok(d) => d,
                Err(e) => {
                    return Err(e);
                },
            };
            let chosen: Option<&String> = match &input.username {
                Some(u) => Some(u),
                None => match &input.prefix {
                    Some(p) => Some(p),
                    None => None,
                },
            };
            let username = match chosen {
                Some(name) => {
                    let t = trim_str(name.as_str());
                    if utf8_byte_len(&t) < 3 {
                        return Err(invalid_input("Cloudflare username must contain at least 3 characters"));
                    }
                    string_of(&t)
                },
                None => generated_mailbox_name(),
            };
            Ok(TempMailboxPlan::Cloudflare { username, domain })
        },
    }
}


// ---------------------------------------------------------------------------
// Imports
// ---------------------------------------------------------------------------

/// What one line of a temporary-mail import holds.
#[derive(Debug, Clone)]
pub enum TempImportLine {
    /// A blank line.
    Blank,
    /// A Cloudflare channel header: the default channel, or one by name.
    ChannelHeader(Option<String>),
    /// An address, with the password given for it (empty when none is).
    Entry { email: String, password: String },
    /// A DuckMail line without a password.
    MissingPassword,
}

/// The text before the first `----` (all of it without one).
pub open spec fn first_field(line: Seq<char>) -> Seq<char> {
    split(line, "----"@)[0]
}

/// How an import line reads for a service.  GPTMail lines are addresses;
/// DuckMail lines are `address----password` (more fields are ignored);
/// Cloudflare lines are headers or addresses with optional fields.
pub open spec fn import_line(service: TempMailService, line: Seq<char>) -> (int, Seq<char>, Seq<char>) {
    let t = trim(line);
    if t.len() == 0 {
        (0, Seq::empty(), Seq::empty())
    } else if service == TempMailService::Cloudflare && import_header(t) is Some {
        (1, or_empty(import_header(t)->0), Seq::empty())
    } else if service == TempMailService::GptMail {
        (2, t, Seq::empty())
    } else if service == TempMailService::DuckMail {
        let parts = split(t, "----"@);
        let password = if parts.len() > 1 { trim(parts[1]) } else { Seq::empty() };
        if password.len() == 0 {
            (3, Seq::empty(), Seq::empty())
        } else {
            (2, trim(parts[0]), password)
        }
    } else {
        (2, trim(first_field(t)), Seq::empty())
    }
}

/// The view of a parsed line as (kind, first text, second text): kind 0 is a
/// blank line, 1 a header (the text naming its channel, empty for the
/// default; `header_named` tells the two apart), 2 an entry, 3 a line
/// without a password.
pub open spec fn line_view(l: TempImportLine) -> (int, Seq<char>, Seq<char>) {
    match l {
        TempImportLine::Blank => (0, Seq::empty(), Seq::empty()),
        TempImportLine::ChannelHeader(n) => (1, text_or_empty(n), Seq::empty()),
        TempImportLine::Entry { email, password } => (2, email@, password@),
        TempImportLine::MissingPassword => (3, Seq::empty(), Seq::empty()),
    }
}

pub fn parse_temp_import_line(service: TempMailService, line: &str) -> (r: TempImportLine)
    ensures
        line_view(r) == import_line(service, line@),
        r matches TempImportLine::ChannelHeader(n) ==> (n is Some <==> import_header(trim(line@))->0 is Some),
{
    let t = trim_str(line);
    if t.len() == 0 {
        return TempImportLine::Blank;
    }
    let ts = string_of(&t);
    proof {
        crate::text::lemma_trim_idempotent(line@);
    }
    if service == TempMailService::Cloudflare {
        match cloudflare_import_header(ts.as_str()) {
            Some(name) => {
                return TempImportLine::ChannelHeader(name);
            },
            None => {},
        }
    }
    if service == TempMailService::GptMail {
        return TempImportLine::Entry { email: ts, password: String::new() };
    }
    let sep = chars_of("----");
    proof {
        reveal_strlit("----");
    }
    let parts = split_exec(&t, &sep);
    proof {
        crate::text::lemma_split_nonempty(t@, sep@);
    }
    assert(views(parts@)[0] == parts@[0]@);
    if service == TempMailService::DuckMail {
        let password = if parts.len() > 1 {
            assert(views(parts@)[1] == parts@[1]@);
            trim_chars(&parts[1])
        } else {
            Vec::new()
        };
        if password.len() == 0 {
            return TempImportLine::MissingPassword;
        }
        return TempImportLine::Entry {
            email: string_of(&trim_chars(&parts[0])),
            password: string_of(&password),
        };
    }
    TempImportLine::Entry { email: string_of(&trim_chars(&parts[0])), password: String::new() }
}

/// The message reported for a line of an import, numbered from one.
pub open spec fn line_error(index: nat, message: Seq<char>) -> Seq<char> {
    "line "@ + crate::text::decimal(index + 1) + ": "@ + message
}

pub fn import_line_error(line_index: u64, message: &str) -> (r: String)
    requires
        line_index < u64::MAX,
    ensures
        r@ == line_error(line_index as nat, message@),
{
    let mut m = chars_of("line ");
    append_chars(&mut m, &crate::text::decimal_u64(line_index + 1));
    append_str(&mut m, ": ");
    append_str(&mut m, message);
    string_of(&m)
}

/// The running count of a temporary-mail import: mailboxes added, mailboxes
/// updated, lines skipped, and the errors met, in line order.
#[derive(Debug, Clone)]
pub struct TempImportTally {
    pub imported: u64,
    pub updated: u64,
    pub skipped: u64,
    pub errors: Vec<String>,
}

/// What an import answers once every line is read: refused with its first
/// error, or a fixed message without one, when it stored nothing.
pub open spec fn import_outcome(imported: u64, updated: u64, errors: Seq<Seq<char>>) -> Result<
    (),
    Seq<char>,
> {
    if imported + updated > 0 {
        Ok(())
    } else if errors.len() > 0 {
        Err(errors[0])
    } else {
        Err("no valid temporary emails were found"@)
    }
}

impl TempImportTally {
    pub fn new() -> (r: Self)
        ensures
            r.imported == 0 && r.updated == 0 && r.skipped == 0 && r.errors@.len() == 0,
    {
        TempImportTally { imported: 0, updated: 0, skipped: 0, errors: Vec::new() }
    }

    /// Records the error of a line that still goes on (a channel header
    /// whose channel is not found).
    pub fn note(&mut self, line_index: u64, message: &str)
        requires
            line_index < u64::MAX,
        ensures
            views_s(final(self).errors@) == views_s(old(self).errors@).push(
                line_error(line_index as nat, message@),
            ),
            final(self).imported == old(self).imported,
            final(self).updated == old(self).updated,
            final(self).skipped == old(self).skipped,
    {
        let m = import_line_error(line_index, message);
        self.errors.push(m);
        assert(views_s(self.errors@) =~= views_s(old(self).errors@).push(
            line_error(line_index as nat, message@),
        ));
    }

    /// Skips a line that yields no mailbox, with its error when it has one.
    pub fn skip(&mut self, line_index: u64, message: Option<&str>)
        requires
            line_index < u64::MAX,
            old(self).skipped < u64::MAX,
        ensures
            final(self).skipped == old(self).skipped + 1,
            final(self).imported == old(self).imported,
            final(self).updated == old(self).updated,
            message is None ==> final(self).errors@ == old(self).errors@,
            message matches Some(m) ==> views_s(final(self).errors@) == views_s(
                old(self).errors@,
            ).push(line_error(line_index as nat, m@)),
    {
        self.skipped = self.skipped + 1;
        if let Some(m) = message {
            let e = import_line_error(line_index, m);
            self.errors.push(e);
            assert(views_s(self.errors@) =~= views_s(old(self).errors@).push(
                line_error(line_index as nat, m@),
            ));
        }
    }

    /// Counts a stored mailbox: an update where the address was known.
    pub fn stored(&mut self, existed: bool)
        requires
            existed ==> old(self).updated < u64::MAX,
            !existed ==> old(self).imported < u64::MAX,
        ensures
            existed ==> final(self).updated == old(self).updated + 1 && final(self).imported
                == old(self).imported,
            !existed ==> final(self).imported == old(self).imported + 1 && final(self).updated
                == old(self).updated,
            final(self).skipped == old(self).skipped,
            final(self).errors@ == old(self).errors@,
    {
        if existed {
            self.updated = self.updated + 1;
        } else {
            self.imported = self.imported + 1;
        }
    }

    pub fn outcome(&self) -> (r: AppResult<()>)
        ensures
            match import_outcome(self.imported, self.updated, views_s(self.errors@)) {
                Ok(_) => r is Ok,
                Err(m) => r matches Err(e) && is_invalid_input(e, m),
            },
    {
        if self.imported > 0 || self.updated > 0 {
            return Ok(());
        }
        if self.errors.len() > 0 {
            return Err(AppError::InvalidInput(string_of(&chars_of(self.errors[0].as_str()))));
        }
        Err(invalid_input("no valid temporary emails were found"))
    }
}

// ---------------------------------------------------------------------------
// Batches of new mailboxes
// ---------------------------------------------------------------------------

/// The checks a batch of new mailboxes passes before its channel is read:
/// Cloudflare only, 1 to 50 addresses, and a channel named.
pub fn batch_channel_id(provider: &str, count: usize, channel_id: Option<i64>) -> (r: AppResult<i64>)
    ensures
        !eq_ignore_case(trim(provider@), "cloudflare"@) ==> (r matches Err(e) && is_invalid_input(
            e,
            "batch generation currently supports Cloudflare only"@,
        )),
        eq_ignore_case(trim(provider@), "cloudflare"@) && !(1 <= count <= 50) ==> (r matches Err(e)
            && is_invalid_input(e, "count must be between 1 and 50"@)),
        eq_ignore_case(trim(provider@), "cloudflare"@) && 1 <= count <= 50 ==> match channel_id {
            Some(id) => r matches Ok(x) && x == id,
            None => r matches Err(e) && is_invalid_input(e, "Cloudflare channel is required"@),
        },
{
    if !eq_ignore_case_str(&trim_str(provider), "cloudflare") {
        return Err(invalid_input("batch generation currently supports Cloudflare only"));
    }
    if count < 1 || count > 50 {
        return Err(invalid_input("count must be between 1 and 50"));
    }
    match channel_id {
        Some(id) => Ok(id),
        None => Err(invalid_input("Cloudflare channel is required")),
    }
}

/// The domain a batch names, or else the channel's first domain.
pub open spec fn batch_domain_text(domain: Option<Seq<char>>, channel: CloudflareChannelCredentials) -> Seq<
    char,
> {
    domain_text(
        match domain {
            Some(d) => d,
            None => if channel.domains@.len() > 0 {
                channel.domains@[0]@
            } else {
                Seq::empty()
            },
        },
    )
}

/// The domain of a batch of new mailboxes, refused unless the channel
/// offers it.
pub fn batch_domain(domain: Option<&str>, channel: &CloudflareChannelCredentials) -> (r: AppResult<
    String,
>)
    ensures
        channel_has_domain(*channel, batch_domain_text(opt_str_view(domain), *channel)) ==> (r matches Ok(
            d,
        ) && d@ == batch_domain_text(opt_str_view(domain), *channel)),
        !channel_has_domain(*channel, batch_domain_text(opt_str_view(domain), *channel)) ==> (r matches Err(
            e,
        ) && is_invalid_input(e, "selected domain does not belong to this Cloudflare channel"@)),
{
    match domain {
        Some(d) => offered_domain(d, channel),
        None => if channel.domains.len() > 0 {
            offered_domain(channel.domains[0].as_str(), channel)
        } else {
            offered_domain("", channel)
        },
    }
}

// ---------------------------------------------------------------------------
// Cloudflare channels
// ---------------------------------------------------------------------------

/// A request to add a Cloudflare channel, or to change one (`id` given).
#[derive(Debug, Clone)]
pub struct CloudflareChannelInput {
    pub id: Option<i64>,
    pub name: String,
    pub worker_url: String,
    pub admin_password: Option<String>,
    pub email_domains: Vec<String>,
    pub enabled: Option<bool>,
}

/// A channel domain as stored: trimmed, without leading `@` or trailing
/// dots, lower-cased.
pub open spec fn stored_domain(raw: Seq<char>) -> Seq<char> {
    lowercase(strip_trailing(crate::text::strip_leading(trim(raw), '@'), '.'))
}

/// The domains the values name: each non-empty stored domain, once.
pub open spec fn names_domain(values: Seq<Seq<char>>, d: Seq<char>) -> bool {
    d.len() > 0 && exists|i: int| 0 <= i < values.len() && stored_domain(#[trigger] values[i]) == d
}

/// What a saved channel stores besides its secret.
#[derive(Debug, Clone)]
pub struct CloudflareChannelPlan {
    pub name: String,
    pub worker_url: String,
    pub domains: Vec<String>,
    pub enabled: bool,
    /// The new admin password; `None` keeps the stored one.
    pub admin_password: Option<String>,
}

/// Checks a channel request: the Worker URL, then the name, then the
/// domains (at least one), then, for a new channel, the admin password.
/// The domains are kept once each; their order is not significant.
pub fn plan_cloudflare_channel(input: &CloudflareChannelInput) -> (r: AppResult<CloudflareChannelPlan>)
    ensures
        worker_url(input.worker_url@) matches Err(m) ==> (r matches Err(e) && is_invalid_input(e, m)),
        worker_url(input.worker_url@) is Ok && trim(input.name@).len() == 0 ==> (r matches Err(e)
            && is_invalid_input(e, "channel name is required"@)),
        worker_url(input.worker_url@) is Ok && trim(input.name@).len() > 0 && !(exists|d: Seq<char>|
            names_domain(views_s(input.email_domains@), d)) ==> (r matches Err(e) && is_invalid_input(
            e,
            "at least one Cloudflare email domain is required"@,
        )),
        input.id is None && worker_url(input.worker_url@) is Ok && trim(input.name@).len() > 0 && (
        exists|d: Seq<char>| names_domain(views_s(input.email_domains@), d)) && text_or_empty(
            input.admin_password,
        ).len() == 0 ==> (r matches Err(e) && is_invalid_input(e, "admin password is required"@)),
        r matches Ok(p) ==> {
            &&& worker_url(input.worker_url@) == Ok::<Seq<char>, Seq<char>>(p.worker_url@)
            &&& p.name@ == trim(input.name@)
            &&& views_s(p.domains@).no_duplicates()
            &&& forall|d: Seq<char>| #[trigger] views_s(p.domains@).contains(d) <==> names_domain(
                views_s(input.email_domains@),
                d,
            )
            &&& p.enabled == match input.enabled {
                Some(e) => e,
                None => true,
            }
            &&& opt_chars(p.admin_password) == if text_or_empty(input.admin_password).len() > 0 {
                opt_chars(input.admin_password)
            } else {
                None
            }
        },
        r is Err ==> !(worker_url(input.worker_url@) is Ok && trim(input.name@).len() > 0 && (exists|
            d: Seq<char>,
        | names_domain(views_s(input.email_domains@), d)) && (input.id is Some || text_or_empty(
            input.admin_password,
        ).len() > 0)),
{
    let worker = match normalize_worker_url(input.worker_url.as_str()) {
        Ok(u) => u,
        Err(e) => {
            return Err(e);
        },
    };
    let name = trim_str(input.name.as_str());
    if name.len() == 0 {
        return Err(invalid_input("channel name is required"));
    }
    let ghost values = views_s(input.email_domains@);
    let mut domains: Vec<String> = Vec::new();
    let mut i: usize = 0;
    while i < input.email_domains.len()
        invariant
            0 <= i <= input.email_domains.len(),
            values == views_s(input.email_domains@),
            views_s(domains@).no_duplicates(),
            forall|d: Seq<char>| #[trigger] views_s(domains@).contains(d) <==> names_domain(
                values.take(i as int),
                d,
            ),
        decreases input.email_domains.len() - i,
    {
        let stripped = crate::text::strip_leading_exec(&trim_str(input.email_domains[i].as_str()), '@');
        let bare = strip_trailing_exec(&stripped, '.');
        let d = to_lowercase_string(string_of(&bare).as_str());
        let dv = chars_of(d.as_str());
        let ghost before = views_s(domains@);
        assert(dv@ == stored_domain(values[i as int]));
        assert forall|e: Seq<char>|
            names_domain(values.take(i + 1), e) <==> (names_domain(values.take(i as int), e) || (
            e.len() > 0 && e == dv@)) by {
            if names_domain(values.take(i + 1), e) {
                let k = choose|k: int| 0 <= k < i + 1 && stored_domain(#[trigger] values.take(i + 1)[k]) == e;
                if k < i {
                    assert(values.take(i as int)[k] == values.take(i + 1)[k]);
                }
            }
            if names_domain(values.take(i as int), e) {
                let k = choose|k: int| 0 <= k < i && stored_domain(#[trigger] values.take(i as int)[k]) == e;
                assert(values.take(i + 1)[k] == values.take(i as int)[k]);
            }
            if e.len() > 0 && e == dv@ {
                assert(values.take(i + 1)[i as int] == values[i as int]);
            }
        }
        if dv.len() > 0 && !crate::providers::strings_contain(domains.as_slice(), &dv) {
            domains.push(d);
            assert(views_s(domains@) =~= before.push(dv@));
            assert forall|e: Seq<char>| #[trigger] views_s(domains@).contains(e) <==> (before.contains(e) || e == dv@) by {
                vstd::seq_lib::lemma_seq_contains_after_push(before, dv@, e);
            }
        }
        i = i + 1;
    }
    assert(values.take(input.email_domains.len() as int) =~= values);
    if domains.len() == 0 {
        assert forall|d: Seq<char>| !names_domain(values, d) by {
            if names_domain(values, d) {
                assert(views_s(domains@).contains(d));
            }
        }
        return Err(invalid_input("at least one Cloudflare email domain is required"));
    }
    assert(names_domain(values, views_s(domains@)[0])) by {
        assert(views_s(domains@).contains(views_s(domains@)[0]));
    }
    let admin_password = match &input.admin_password {
        Some(p) => if p.as_str().unicode_len() > 0 {
            Some(string_of(&chars_of(p.as_str())))
        } else {
            None
        },
        None => None,
    };
    if input.id.is_none() && admin_password.is_none() {
        return Err(invalid_input("admin password is required"));
    }
    let enabled = match input.enabled {
        Some(e) => e,
        None => true,
    };
    Ok(
        CloudflareChannelPlan {
            name: string_of(&name),
            worker_url: worker,
            domains,
            enabled,
            admin_password,
        },
    )
}

// ---------------------------------------------------------------------------
// Messages of temporary mailboxes
// ---------------------------------------------------------------------------

/// A message of a temporary mailbox.
#[derive(Debug, Clone)]
pub struct TempEmailMessage {
    pub id: String,
    pub sender: String,
    pub recipients: String,
    pub subject: String,
    pub body_preview: String,
    pub body: Option<String>,
    pub body_type: String,
    pub received_at: String,
}

/// The id of a Cloudflare message: the id the Worker gave when it is not
/// empty, else the `Message-ID` header, else `cf-` and the hex SHA-256 of
/// the raw message, which is the same on every read.
pub open spec fn cloudflare_message_id(item_id: Option<Seq<char>>, m: MimeMessage, raw: Seq<u8>) -> Seq<
    char,
> {
    if item_id matches Some(i) && i.len() > 0 {
        item_id->0
    } else if m.message_id is Some {
        m.message_id->0@
    } else {
        "cf-"@ + lower_hex(sha256_digest(raw))
    }
}

/// A message a Cloudflare Worker returned as raw MIME, with the id the
/// Worker gave it; `None` where the MIME does not parse.  The body is the
/// HTML body where there is one, else the plain-text body; the preview is
/// the first 200 characters of the plain-text body.
pub fn cloudflare_message(raw: &str, item_id: Option<String>, recipient: &str, include_body: bool) -> (r:
    Option<TempEmailMessage>)
    ensures
        match parsed_mime(encode_utf8(raw@)) {
            Err(_) => r is None,
            Ok(m) => r matches Some(msg) && {
                let (plain, html) = bodies(m.root);
                &&& msg.id@ == cloudflare_message_id(opt_chars(item_id), m, encode_utf8(raw@))
                &&& msg.sender@ == match m.from {
                    Some(f) => f@,
                    None => "Unknown"@,
                }
                &&& msg.recipients@ == match m.to {
                    Some(t) => t@,
                    None => recipient@,
                }
                &&& msg.subject@ == text_or_empty(m.subject)
                &&& msg.body_preview@ == if plain.len() <= 200 { plain } else { plain.take(200) }
                &&& opt_chars(msg.body) == if include_body {
                    Some(if html.len() == 0 { plain } else { html })
                } else {
                    None
                }
                &&& msg.body_type@ == if html.len() == 0 { "text"@ } else { "html"@ }
                &&& msg.received_at@ == text_or_empty(m.date)
            },
        },
{
    let m = match parse_mime(raw.as_bytes()) {
        Ok(m) => m,
        Err(_) => {
            return None;
        },
    };
    let given = match item_id {
        Some(i) => if i.as_str().unicode_len() > 0 {
            Some(i)
        } else {
            None
        },
        None => None,
    };
    let id = match given {
        Some(i) => i,
        None => match &m.message_id {
            Some(h) => string_of(&chars_of(h.as_str())),
            None => {
                let mut t = chars_of("cf-");
                append_str(&mut t, sha256_hex(raw.as_bytes()).as_str());
                string_of(&t)
            },
        },
    };
    let (plain, html) = mime_bodies(&m.root);
    let pv = chars_of(plain.as_str());
    let preview = if pv.len() <= 200 {
        string_of(&pv)
    } else {
        let p = subrange(&pv, 0, 200);
        assert(p@ =~= pv@.take(200));
        string_of(&p)
    };
    let shows_html = html.as_str().unicode_len() > 0;
    let body_type = if shows_html {
        string_of(&chars_of("html"))
    } else {
        string_of(&chars_of("text"))
    };
    let body = if include_body {
        if shows_html {
            Some(html)
        } else {
            Some(plain)
        }
    } else {
        None
    };
    proof {
        reveal_strlit("");
    }
    let sender = match &m.from {
        Some(f) => string_of(&chars_of(f.as_str())),
        None => string_of(&chars_of("Unknown")),
    };
    let recipients = match &m.to {
        Some(t) => string_of(&chars_of(t.as_str())),
        None => string_of(&chars_of(recipient)),
    };
    let subject = match &m.subject {
        Some(t) => string_of(&chars_of(t.as_str())),
        None => String::new(),
    };
    let received_at = match &m.date {
        Some(t) => string_of(&chars_of(t.as_str())),
        None => String::new(),
    };
    Some(
        TempEmailMessage {
            id,
            sender,
            recipients,
            subject,
            body_preview: preview,
            body,
            body_type,
            received_at,
        },
    )
}

// ---------------------------------------------------------------------------
// The import run
// ---------------------------------------------------------------------------

/// A temporary-mail import in progress: the service, the address of its
/// API, the channel chosen for the import and the one the lines have
/// switched to, the running tally, and a Cloudflare entry waiting for its
/// channel's Worker address.
#[derive(Debug, Clone)]
pub struct TempImportRun {
    pub service: TempMailService,
    pub base_url: String,
    pub default_channel: Option<i64>,
    pub channel: Option<i64>,
    pub tally: TempImportTally,
    pub pending: Option<(u64, String, String, i64)>,
}

pub struct TempImportRunView {
    pub service: TempMailService,
    pub base_url: Seq<char>,
    pub default_channel: Option<i64>,
    pub channel: Option<i64>,
    pub imported: u64,
    pub updated: u64,
    pub skipped: u64,
    pub errors: Seq<Seq<char>>,
    pub pending: Option<(u64, Seq<char>, Seq<char>, i64)>,
}

impl View for TempImportRun {
    type V = TempImportRunView;

    open spec fn view(&self) -> TempImportRunView {
        TempImportRunView {
            service: self.service,
            base_url: self.base_url@,
            default_channel: self.default_channel,
            channel: self.channel,
            imported: self.tally.imported,
            updated: self.tally.updated,
            skipped: self.tally.skipped,
            errors: views_s(self.tally.errors@),
            pending: match self.pending {
                Some(p) => Some((p.0, p.1@, p.2@, p.3)),
                None => None,
            },
        }
    }
}

/// What the caller brings to the run: the next line, the outcome of a
/// channel lookup by name, or the Worker address of a channel.
#[derive(Debug)]
pub enum TempImportEvent {
    Line { index: u64, text: String },
    ChannelFound { index: u64, found: Result<i64, String> },
    WorkerFound(Result<String, String>),
}

pub enum TempImportEventView {
    Line { index: u64, text: Seq<char> },
    ChannelFound { index: u64, found: Result<i64, Seq<char>> },
    WorkerFound(Result<Seq<char>, Seq<char>>),
}

impl View for TempImportEvent {
    type V = TempImportEventView;

    open spec fn view(&self) -> TempImportEventView {
        match self {
            TempImportEvent::Line { index, text } => TempImportEventView::Line {
                index: *index,
                text: text@,
            },
            TempImportEvent::ChannelFound { index, found } => TempImportEventView::ChannelFound {
                index: *index,
                found: match found {
                    Ok(id) => Ok(*id),
                    Err(m) => Err(m@),
                },
            },
            TempImportEvent::WorkerFound(r) => TempImportEventView::WorkerFound(
                match r {
                    Ok(u) => Ok(u@),
                    Err(m) => Err(m@),
                },
            ),
        }
    }
}

/// What the caller does next: read the next line, look a channel up by
/// name, look up a channel's Worker address, or store a mailbox (and then
/// count it with `TempImportTally::stored`).
#[derive(Debug, Clone)]
pub enum TempImportAction {
    NextLine,
    FindChannel(String),
    FindWorker(i64),
    Store {
        email: String,
        password: String,
        base_url: String,
        channel_id: Option<i64>,
        with_api_key: bool,
    },
}

pub enum TempImportActionView {
    NextLine,
    FindChannel(Seq<char>),
    FindWorker(i64),
    Store {
        email: Seq<char>,
        password: Seq<char>,
        base_url: Seq<char>,
        channel_id: Option<i64>,
        with_api_key: bool,
    },
}

impl View for TempImportAction {
    type V = TempImportActionView;

    open spec fn view(&self) -> TempImportActionView {
        match self {
            TempImportAction::NextLine => TempImportActionView::NextLine,
            TempImportAction::FindChannel(n) => TempImportActionView::FindChannel(n@),
            TempImportAction::FindWorker(id) => TempImportActionView::FindWorker(*id),
            TempImportAction::Store { email, password, base_url, channel_id, with_api_key } =>
                TempImportActionView::Store {
                email: email@,
                password: password@,
                base_url: base_url@,
                channel_id: *channel_id,
                with_api_key: *with_api_key,
            },
        }
    }
}

/// The run with one more line skipped, and its error when it has one.
pub open spec fn skipped_run(r: TempImportRunView, index: u64, message: Option<Seq<char>>) -> TempImportRunView {
    TempImportRunView {
        skipped: (r.skipped + 1) as u64,
        errors: match message {
            Some(m) => r.errors.push(line_error(index as nat, m)),
            None => r.errors,
        },
        pending: None,
        ..r
    }
}

/// An address read from a line: stored when it is a valid address (with
/// the import's API key, except for a Cloudflare mailbox, which reaches its
/// channel's Worker), skipped otherwise.
pub open spec fn entry_step(
    r: TempImportRunView,
    index: u64,
    email: Seq<char>,
    password: Seq<char>,
    base_url: Seq<char>,
    channel_id: Option<i64>,
) -> (TempImportRunView, TempImportActionView) {
    if valid_email_address(email) {
        (
            TempImportRunView { pending: None, ..r },
            TempImportActionView::Store {
                email,
                password,
                base_url,
                channel_id,
                with_api_key: channel_id is None,
            },
        )
    } else {
        (skipped_run(r, index, Some("invalid email address"@)), TempImportActionView::NextLine)
    }
}

/// One step of an import.  A Cloudflare header switches the channel (back
/// to the chosen one when it names none); a channel that cannot be found
/// is reported and leaves the lines after it without a channel until the
/// next header.  A Cloudflare address needs a channel and its Worker
/// address; a DuckMail line needs a password.
pub open spec fn temp_import_step(r: TempImportRunView, e: TempImportEventView) -> (
    TempImportRunView,
    TempImportActionView,
) {
    match e {
        TempImportEventView::Line { index, text } => {
            let l = import_line(r.service, text);
            if l.0 == 0 {
                (r, TempImportActionView::NextLine)
            } else if l.0 == 1 {
                match import_header(trim(text))->0 {
                    None => (
                        TempImportRunView { channel: r.default_channel, ..r },
                        TempImportActionView::NextLine,
                    ),
                    Some(name) => (r, TempImportActionView::FindChannel(name)),
                }
            } else if l.0 == 3 {
                (skipped_run(r, index, None), TempImportActionView::NextLine)
            } else if r.service == TempMailService::Cloudflare {
                match r.channel {
                    Some(id) => (
                        TempImportRunView { pending: Some((index, l.1, l.2, id)), ..r },
                        TempImportActionView::FindWorker(id),
                    ),
                    None => (
                        skipped_run(r, index, Some("Cloudflare channel is required"@)),
                        TempImportActionView::NextLine,
                    ),
                }
            } else {
                entry_step(r, index, l.1, l.2, r.base_url, None)
            }
        },
        TempImportEventView::ChannelFound { index, found } => match found {
            Ok(id) => (TempImportRunView { channel: Some(id), ..r }, TempImportActionView::NextLine),
            Err(m) => (
                TempImportRunView {
                    channel: None,
                    errors: r.errors.push(line_error(index as nat, m)),
                    ..r
                },
                TempImportActionView::NextLine,
            ),
        },
        TempImportEventView::WorkerFound(found) => match r.pending {
            None => (r, TempImportActionView::NextLine),
            Some((index, email, password, id)) => match found {
                Ok(url) => entry_step(r, index, email, password, url, Some(id)),
                Err(m) => (skipped_run(r, index, Some(m)), TempImportActionView::NextLine),
            },
        },
    }
}

impl TempImportRun {
    /// A run for a service, with the API address and the channel chosen
    /// for the import.
    pub fn start(service: TempMailService, base_url: String, default_channel: Option<i64>) -> (r: Self)
        ensures
            r@.service == service,
            r@.base_url == base_url@,
            r@.default_channel == default_channel,
            r@.channel == default_channel,
            r@.imported == 0 && r@.updated == 0 && r@.skipped == 0,
            r@.errors.len() == 0,
            r@.pending is None,
    {
        TempImportRun {
            service,
            base_url,
            default_channel,
            channel: default_channel,
            tally: TempImportTally::new(),
            pending: None,
        }
    }

    fn skip_line(&mut self, index: u64, message: Option<&str>)
        requires
            index < u64::MAX,
            old(self).tally.skipped < u64::MAX,
        ensures
            final(self)@ == skipped_run(old(self)@, index, match message {
                Some(m) => Some(m@),
                None => None,
            }),
    {
        self.tally.skip(index, message);
        self.pending = None;
        proof {
            if message is None {
                assert(views_s(self.tally.errors@) =~= views_s(old(self).tally.errors@));
            }
        }
    }

    fn entry(&mut self, index: u64, email: String, password: String, base_url: String, channel_id: Option<
        i64,
    >) -> (a: TempImportAction)
        requires
            index < u64::MAX,
            old(self).tally.skipped < u64::MAX,
        ensures
            (final(self)@, a@) == entry_step(old(self)@, index, email@, password@, base_url@, channel_id),
    {
        if is_valid_email_address(email.as_str()) {
            self.pending = None;
            TempImportAction::Store {
                email,
                password,
                base_url,
                channel_id,
                with_api_key: channel_id.is_none(),
            }
        } else {
            self.skip_line(index, Some("invalid email address"));
            TempImportAction::NextLine
        }
    }

    /// Takes one step of the import.
    pub fn step(&mut self, event: TempImportEvent) -> (a: TempImportAction)
        requires
            old(self).tally.skipped < u64::MAX,
            event@ matches TempImportEventView::Line { index, .. } ==> index < u64::MAX,
            event@ matches TempImportEventView::ChannelFound { index, .. } ==> index < u64::MAX,
            old(self)@.pending matches Some(p) ==> p.0 < u64::MAX,
        ensures
            (final(self)@, a@) == temp_import_step(old(self)@, event@),
    {
        let ghost e = event@;
        match event {
            TempImportEvent::Line { index, text } => {
                let line = parse_temp_import_line(self.service, text.as_str());
                match line {
                    TempImportLine::Blank => TempImportAction::NextLine,
                    TempImportLine::ChannelHeader(None) => {
                        self.channel = self.default_channel;
                        TempImportAction::NextLine
                    },
                    TempImportLine::ChannelHeader(Some(name)) => TempImportAction::FindChannel(name),
                    TempImportLine::MissingPassword => {
                        self.skip_line(index, None);
                        TempImportAction::NextLine
                    },
                    TempImportLine::Entry { email, password } => {
                        if self.service == TempMailService::Cloudflare {
                            match self.channel {
                                Some(id) => {
                                    self.pending = Some((index, email, password, id));
                                    TempImportAction::FindWorker(id)
                                },
                                None => {
                                    self.skip_line(index, Some("Cloudflare channel is required"));
                                    TempImportAction::NextLine
                                },
                            }
                        } else {
                            let url = self.base_url.clone();
                            self.entry(index, email, password, url, None)
                        }
                    },
                }
            },
            TempImportEvent::ChannelFound { index, found } => match found {
                Ok(id) => {
                    self.channel = Some(id);
                    TempImportAction::NextLine
                },
                Err(m) => {
                    self.channel = None;
                    self.tally.note(index, m.as_str());
                    TempImportAction::NextLine
                },
            },
            TempImportEvent::WorkerFound(found) => {
                let pending = self.pending.take();
                match pending {
                    None => TempImportAction::NextLine,
                    Some((index, email, password, id)) => match found {
                        Ok(url) => self.entry(index, email, password, url, Some(id)),
                        Err(m) => {
                            self.skip_line(index, Some(m.as_str()));
                            TempImportAction::NextLine
                        },
                    },
                }
            },
        }
    }
}

/// The name a service is stored under.
pub open spec fn service_name(s: TempMailService) -> Seq<char> {
    match s {
        TempMailService::GptMail => "gptmail"@,
        TempMailService::DuckMail => "duckmail"@,
        TempMailService::Cloudflare => "cloudflare"@,
    }
}

impl TempMailService {
    /// The name the service is stored under; it is the trimmed, lower-cased
    /// provider text that named the service.
    pub fn name(&self) -> (r: &'static str)
        ensures
            r@ == service_name(*self),
    {
        match self {
            TempMailService::GptMail => "gptmail",
            TempMailService::DuckMail => "duckmail",
            TempMailService::Cloudflare => "cloudflare",
        }
    }
}

/// An import needs a text that is not blank.
pub fn require_import_text(raw: &str) -> (r: AppResult<()>)
    ensures
        trim(raw@).len() > 0 <==> r is Ok,
        r matches Err(e) ==> is_invalid_input(e, "temporary email import text is required"@),
{
    if trim_str(raw).len() == 0 {
        return Err(invalid_input("temporary email import text is required"));
    }
    Ok(())
}

// ---------------------------------------------------------------------------
// Fields of a Cloudflare Worker item
// ---------------------------------------------------------------------------

/// A field of a JSON object as the Worker sent it: missing, a string, an
/// integer that fits `i64`, or any other JSON value (`null` among them).
#[derive(Debug, Clone)]
pub enum JsonField {
    Missing,
    Text(String),
    Integer(i64),
    Other,
}

/// The id text of a field: a string as it is, an integer in decimal, any
/// other value empty.
pub open spec fn field_id_text(f: JsonField) -> Seq<char> {
    match f {
        JsonField::Text(t) => t@,
        JsonField::Integer(n) => crate::text::decimal_int(n as int),
        _ => Seq::empty(),
    }
}

/// The id the Worker gave a message: its `id` field when present, else its
/// `mail_id`, as text; `None` when neither is present.
pub open spec fn worker_item_id(id: JsonField, mail_id: JsonField) -> Option<Seq<char>> {
    match id {
        JsonField::Missing => match mail_id {
            JsonField::Missing => None,
            _ => Some(field_id_text(mail_id)),
        },
        _ => Some(field_id_text(id)),
    }
}

pub fn cloudflare_item_id(id: &JsonField, mail_id: &JsonField) -> (r: Option<String>)
    ensures
        opt_chars(r) == worker_item_id(*id, *mail_id),
{
    let f = match id {
        JsonField::Missing => match mail_id {
            JsonField::Missing => {
                return None;
            },
            _ => mail_id,
        },
        _ => id,
    };
    match f {
        JsonField::Text(t) => Some(t.clone()),
        JsonField::Integer(n) => Some(string_of(&crate::text::decimal_i64(*n))),
        _ => Some(String::new()),
    }
}

/// The raw MIME text of a Worker message: the first present of `raw`,
/// `raw_content` and `source_raw`, when that one is a string.
pub open spec fn worker_item_raw(raw: JsonField, raw_content: JsonField, source_raw: JsonField) -> Option<
    Seq<char>,
> {
    let f = match raw {
        JsonField::Missing => match raw_content {
            JsonField::Missing => source_raw,
            _ => raw_content,
        },
        _ => raw,
    };
    match f {
        JsonField::Text(t) => Some(t@),
        _ => None,
    }
}

pub fn cloudflare_item_raw(raw: &JsonField, raw_content: &JsonField, source_raw: &JsonField) -> (r:
    Option<String>)
    ensures
        opt_chars(r) == worker_item_raw(*raw, *raw_content, *source_raw),
{
    let f = match raw {
        JsonField::Missing => match raw_content {
            JsonField::Missing => source_raw,
            _ => raw_content,
        },
        _ => raw,
    };
    match f {
        JsonField::Text(t) => Some(t.clone()),
        _ => None,
    }
}

} // verus!
