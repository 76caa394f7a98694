//! The mail provider registry and the provider-independent decisions that
//! the Graph and IMAP adapters take.
use crate::error::{
    invalid_input, invalid_input_chars, is_internal, is_invalid_input, AppError, AppResult,
};
use crate::models::AccountCredentials;
use crate::text::{
    append_chars, append_str, ascii_lower, ascii_lower_char, chars_of, contains_seq, contains_str,
    decimal, decimal_u64, eq_chars, eq_ignore_case, eq_ignore_case_str, eq_str, is_ascii_whitespace,
    is_ascii_ws, join, join_exec, lower, opt_chars, rfind_char, rfind_char_exec, string_of,
    subrange, text_or_empty, to_ascii_lower, trim, trim_chars, trim_str, views, words_exec,
    words_of,
};
use vstd::prelude::*;

verus! {

broadcast use vstd::string::group_string_axioms;

/// Largest number of messages one refresh fetches per folder.
pub const MAIL_REFRESH_MAX_TOP: usize = 2000;

/// Largest page size the Graph messages endpoint accepts.
pub const GRAPH_MESSAGE_PAGE_MAX_TOP: usize = 1000;

/// A provider of the registry: how it authenticates, where its IMAP server
/// is and what it can do.
#[derive(Debug, Clone)]
pub struct MailProviderDefinition {
    pub id: &'static str,
    pub credential_kind: &'static str,
    pub account_type: &'static str,
    pub default_imap_host: &'static str,
    pub default_imap_port: i64,
    pub capabilities: Vec<&'static str>,
    pub aliases: Vec<&'static str>,
    pub domains: Vec<&'static str>,
}

/// The views of a list of string slices.
pub open spec fn str_views(v: Seq<&'static str>) -> Seq<Seq<char>> {
    Seq::new(v.len(), |i: int| v[i]@)
}

/// The mathematical content of a provider definition.
pub struct ProviderSpec {
    pub id: Seq<char>,
    pub credential_kind: Seq<char>,
    pub account_type: Seq<char>,
    pub default_imap_host: Seq<char>,
    pub default_imap_port: i64,
    pub capabilities: Seq<Seq<char>>,
    pub aliases: Seq<Seq<char>>,
    pub domains: Seq<Seq<char>>,
}

impl View for MailProviderDefinition {
    type V = ProviderSpec;

    open spec fn view(&self) -> ProviderSpec {
        ProviderSpec {
            id: self.id@,
            credential_kind: self.credential_kind@,
            account_type: self.account_type@,
            default_imap_host: self.default_imap_host@,
            default_imap_port: self.default_imap_port,
            capabilities: str_views(self.capabilities@),
            aliases: str_views(self.aliases@),
            domains: str_views(self.domains@),
        }
    }
}

/// Capabilities of the Graph provider.
pub open spec fn graph_capabilities() -> Seq<Seq<char>> {
    seq!["read_mail"@, "download_attachments"@, "mark_read"@, "remote_delete"@]
}

/// Capabilities of every IMAP provider.
pub open spec fn imap_capabilities() -> Seq<Seq<char>> {
    seq!["read_mail"@, "download_attachments"@, "mark_read"@, "remote_delete"@, "imap_folders"@]
}

/// The registry entry with the given id (ids: graph, gmail, qq, imap,
/// netease_163, imap_custom).
pub open spec fn provider_spec(id: Seq<char>) -> ProviderSpec {
    if id == "graph"@ {
        ProviderSpec {
            id: "graph"@,
            credential_kind: "oauth"@,
            account_type: "outlook"@,
            default_imap_host: ""@,
            default_imap_port: 993,
            capabilities: graph_capabilities(),
            aliases: seq!["outlook"@, "microsoft"@, "msgraph"@],
            domains: seq!["outlook.com"@, "hotmail.com"@, "live.com"@, "msn.com"@],
        }
    } else if id == "gmail"@ {
        ProviderSpec {
            id: "gmail"@,
            credential_kind: "imap_app_password"@,
            account_type: "imap"@,
            default_imap_host: "imap.gmail.com"@,
            default_imap_port: 993,
            capabilities: imap_capabilities(),
            aliases: seq!["google"@, "googlemail"@],
            domains: seq!["gmail.com"@, "googlemail.com"@],
        }
    } else if id == "qq"@ {
        ProviderSpec {
            id: "qq"@,
            credential_kind: "imap_auth_code"@,
            account_type: "imap"@,
            default_imap_host: "imap.qq.com"@,
            default_imap_port: 993,
            capabilities: imap_capabilities(),
            aliases: seq!["qqmail"@],
            domains: seq!["qq.com"@, "foxmail.com"@],
        }
    } else if id == "imap"@ {
        ProviderSpec {
            id: "imap"@,
            credential_kind: "imap_password"@,
            account_type: "imap"@,
            default_imap_host: ""@,
            default_imap_port: 993,
            capabilities: imap_capabilities(),
            aliases: seq!["outlook_imap"@],
            domains: Seq::empty(),
        }
    } else if id == "netease_163"@ {
        ProviderSpec {
            id: "netease_163"@,
            credential_kind: "imap_auth_code"@,
            account_type: "imap"@,
            default_imap_host: "imap.163.com"@,
            default_imap_port: 993,
            capabilities: imap_capabilities(),
            aliases: seq!["163"@, "netease"@, "163mail"@],
            domains: seq!["163.com"@],
        }
    } else {
        ProviderSpec {
            id: "imap_custom"@,
            credential_kind: "imap_password"@,
            account_type: "imap"@,
            default_imap_host: ""@,
            default_imap_port: 993,
            capabilities: imap_capabilities(),
            aliases: seq!["custom_imap"@, "custom"@],
            domains: Seq::empty(),
        }
    }
}

/// The registry id named by an already lower-cased, trimmed provider name
/// (an id or one of its aliases).
pub open spec fn provider_id_of(p: Seq<char>) -> Option<Seq<char>> {
    if p == "graph"@ || p == "outlook"@ || p == "microsoft"@ || p == "msgraph"@ {
        Some("graph"@)
    } else if p == "gmail"@ || p == "google"@ || p == "googlemail"@ {
        Some("gmail"@)
    } else if p == "qq"@ || p == "qqmail"@ {
        Some("qq"@)
    } else if p == "imap"@ || p == "outlook_imap"@ {
        Some("imap"@)
    } else if p == "netease_163"@ || p == "163"@ || p == "netease"@ || p == "163mail"@ {
        Some("netease_163"@)
    } else if p == "imap_custom"@ || p == "custom_imap"@ || p == "custom"@ {
        Some("imap_custom"@)
    } else {
        None
    }
}

/// `normalize_mail_provider_id`: the registry id that a user-written
/// provider name denotes, ignoring surrounding whitespace and ASCII case.
pub open spec fn normalize_provider(value: Seq<char>) -> Option<Seq<char>> {
    let p = lower(trim(value));
    if p.len() == 0 {
        None
    } else {
        provider_id_of(p)
    }
}

/// The registry ids.
pub open spec fn is_registry_id(id: Seq<char>) -> bool {
    id == "graph"@ || id == "gmail"@ || id == "qq"@ || id == "imap"@ || id == "netease_163"@
        || id == "imap_custom"@
}

pub fn normalize_mail_provider_id(value: &str) -> (r: Option<&'static str>)
    ensures
        r matches Some(id) ==> normalize_provider(value@) == Some(id@),
        r is None ==> normalize_provider(value@) is None,
{
    let t = trim_str(value);
    let p = to_ascii_lower(&t);
    if p.len() == 0 {
        return None;
    }
    if eq_str(&p, "graph") || eq_str(&p, "outlook") || eq_str(&p, "microsoft") || eq_str(
        &p,
        "msgraph",
    ) {
        Some("graph")
    } else if eq_str(&p, "gmail") || eq_str(&p, "google") || eq_str(&p, "googlemail") {
        Some("gmail")
    } else if eq_str(&p, "qq") || eq_str(&p, "qqmail") {
        Some("qq")
    } else if eq_str(&p, "imap") || eq_str(&p, "outlook_imap") {
        Some("imap")
    } else if eq_str(&p, "netease_163") || eq_str(&p, "163") || eq_str(&p, "netease") || eq_str(
        &p,
        "163mail",
    ) {
        Some("netease_163")
    } else if eq_str(&p, "imap_custom") || eq_str(&p, "custom_imap") || eq_str(&p, "custom") {
        Some("imap_custom")
    } else {
        None
    }
}

fn graph_capability_list() -> (r: Vec<&'static str>)
    ensures
        str_views(r@) == graph_capabilities(),
{
    let r = vec!["read_mail", "download_attachments", "mark_read", "remote_delete"];
    assert(str_views(r@) =~= graph_capabilities());
    r
}

fn imap_capability_list() -> (r: Vec<&'static str>)
    ensures
        str_views(r@) == imap_capabilities(),
{
    let r = vec!["read_mail", "download_attachments", "mark_read", "remote_delete", "imap_folders"];
    assert(str_views(r@) =~= imap_capabilities());
    r
}

/// The registry entry for a registry id.
fn definition_for_id(id: &'static str) -> (r: MailProviderDefinition)
    requires
        is_registry_id(id@),
    ensures
        r@ == provider_spec(id@),
{
    let p = chars_of(id);
    if eq_str(&p, "graph") {
        let aliases = vec!["outlook", "microsoft", "msgraph"];
        let domains = vec!["outlook.com", "hotmail.com", "live.com", "msn.com"];
        let r = MailProviderDefinition {
            id: "graph",
            credential_kind: "oauth",
            account_type: "outlook",
            default_imap_host: "",
            default_imap_port: 993,
            capabilities: graph_capability_list(),
            aliases,
            domains,
        };
        assert(str_views(r.aliases@) =~= provider_spec(id@).aliases);
        assert(str_views(r.domains@) =~= provider_spec(id@).domains);
        r
    } else if eq_str(&p, "gmail") {
        let aliases = vec!["google", "googlemail"];
        let domains = vec!["gmail.com", "googlemail.com"];
        let r = MailProviderDefinition {
            id: "gmail",
            credential_kind: "imap_app_password",
            account_type: "imap",
            default_imap_host: "imap.gmail.com",
            default_imap_port: 993,
            capabilities: imap_capability_list(),
            aliases,
            domains,
        };
        assert(str_views(r.aliases@) =~= provider_spec(id@).aliases);
        assert(str_views(r.domains@) =~= provider_spec(id@).domains);
        r
    } else if eq_str(&p, "qq") {
        let aliases = vec!["qqmail"];
        let domains = vec!["qq.com", "foxmail.com"];
        let r = MailProviderDefinition {
            id: "qq",
            credential_kind: "imap_auth_code",
            account_type: "imap",
            default_imap_host: "imap.qq.com",
            default_imap_port: 993,
            capabilities: imap_capability_list(),
            aliases,
            domains,
        };
        assert(str_views(r.aliases@) =~= provider_spec(id@).aliases);
        assert(str_views(r.domains@) =~= provider_spec(id@).domains);
        r
    } else if eq_str(&p, "imap") {
        let aliases = vec!["outlook_imap"];
        let domains: Vec<&'static str> = Vec::new();
        let r = MailProviderDefinition {
            id: "imap",
            credential_kind: "imap_password",
            account_type: "imap",
            default_imap_host: "",
            default_imap_port: 993,
            capabilities: imap_capability_list(),
            aliases,
            domains,
        };
        assert(str_views(r.aliases@) =~= provider_spec(id@).aliases);
        assert(str_views(r.domains@) =~= provider_spec(id@).domains);
        r
    } else if eq_str(&p, "netease_163") {
        let aliases = vec!["163", "netease", "163mail"];
        let domains = vec!["163.com"];
        let r = MailProviderDefinition {
            id: "netease_163",
            credential_kind: "imap_auth_code",
            account_type: "imap",
            default_imap_host: "imap.163.com",
            default_imap_port: 993,
            capabilities: imap_capability_list(),
            aliases,
            domains,
        };
        assert(str_views(r.aliases@) =~= provider_spec(id@).aliases);
        assert(str_views(r.domains@) =~= provider_spec(id@).domains);
        r
    } else {
        let aliases = vec!["custom_imap", "custom"];
        let domains: Vec<&'static str> = Vec::new();
        let r = MailProviderDefinition {
            id: "imap_custom",
            credential_kind: "imap_password",
            account_type: "imap",
            default_imap_host: "",
            default_imap_port: 993,
            capabilities: imap_capability_list(),
            aliases,
            domains,
        };
        assert(str_views(r.aliases@) =~= provider_spec(id@).aliases);
        assert(str_views(r.domains@) =~= provider_spec(id@).domains);
        r
    }
}

/// Every id that normalisation yields is a registry id.
pub proof fn lemma_provider_id_of_is_registry_id(p: Seq<char>)
    ensures
        provider_id_of(p) matches Some(id) ==> is_registry_id(id),
{
}

/// The registry entry that a provider name denotes.
pub fn mail_provider_definition(value: &str) -> (r: Option<MailProviderDefinition>)
    ensures
        r matches Some(d) ==> normalize_provider(value@) matches Some(id) && d@ == provider_spec(
            id,
        ),
        r is None <==> normalize_provider(value@) is None,
{
    match normalize_mail_provider_id(value) {
        Some(id) => Some(definition_for_id(id)),
        None => None,
    }
}

/// The capabilities of the provider a name denotes.
pub fn mail_provider_capabilities(value: &str) -> (r: Option<Vec<&'static str>>)
    ensures
        r matches Some(c) ==> normalize_provider(value@) matches Some(id) && str_views(c@)
            == provider_spec(id).capabilities,
        r is None <==> normalize_provider(value@) is None,
{
    match mail_provider_definition(value) {
        Some(d) => Some(d.capabilities),
        None => None,
    }
}

/// The provider that `value` names supports `capability`.
pub open spec fn supports_capability(value: Seq<char>, capability: Seq<char>) -> bool {
    normalize_provider(value) matches Some(id) && provider_spec(id).capabilities.contains(
        capability,
    )
}

pub fn mail_provider_supports_capability(value: &str, capability: &str) -> (r: bool)
    ensures
        r == supports_capability(value@, capability@),
{
    match mail_provider_capabilities(value) {
        Some(caps) => {
            let ghost id = normalize_provider(value@)->0;
            assert(str_views(caps@) == provider_spec(id).capabilities);
            let c = chars_of(capability);
            let mut i: usize = 0;
            while i < caps.len()
                invariant
                    0 <= i <= caps.len(),
                    c@ == capability@,
                    normalize_provider(value@) == Some(id),
                    str_views(caps@) == provider_spec(id).capabilities,
                    forall|k: int| 0 <= k < i ==> str_views(caps@)[k] != capability@,
                decreases caps.len() - i,
            {
                let e = chars_of(caps[i]);
                if eq_chars(&e, &c) {
                    assert(str_views(caps@)[i as int] == capability@);
                    assert(str_views(caps@).contains(capability@));
                    return true;
                }
                i = i + 1;
            }
            false
        },
        None => false,
    }
}

/// The domain part of an address: what follows its last `@`, after
/// trimming and ASCII lower-casing; empty when there is no `@`.
pub open spec fn email_domain(email: Seq<char>) -> Seq<char> {
    let s = lower(trim(email));
    match rfind_char(s, '@') {
        Some(i) => s.skip(i + 1),
        None => Seq::empty(),
    }
}

/// The registry entry whose domain list holds `domain`, in registry order,
/// falling back to the custom IMAP provider.
pub open spec fn provider_for_domain(domain: Seq<char>) -> Seq<char> {
    if provider_spec("graph"@).domains.contains(domain) {
        "graph"@
    } else if provider_spec("gmail"@).domains.contains(domain) {
        "gmail"@
    } else if provider_spec("qq"@).domains.contains(domain) {
        "qq"@
    } else if provider_spec("imap"@).domains.contains(domain) {
        "imap"@
    } else if provider_spec("netease_163"@).domains.contains(domain) {
        "netease_163"@
    } else {
        "imap_custom"@
    }
}

/// The provider an account is assigned: an explicit provider name wins,
/// then a refresh token means Graph, then the address domain decides.
pub open spec fn detected_provider(
    email: Seq<char>,
    explicit: Option<Seq<char>>,
    has_refresh_token: bool,
) -> Seq<char> {
    if explicit is Some && normalize_provider(explicit->0) is Some {
        normalize_provider(explicit->0)->0
    } else if has_refresh_token {
        "graph"@
    } else {
        provider_for_domain(email_domain(email))
    }
}

fn domain_listed(domains: &Vec<&'static str>, domain: &Vec<char>) -> (r: bool)
    ensures
        r == str_views(domains@).contains(domain@),
{
    let mut i: usize = 0;
    while i < domains.len()
        invariant
            0 <= i <= domains.len(),
            forall|k: int| 0 <= k < i ==> str_views(domains@)[k] != domain@,
        decreases domains.len() - i,
    {
        let d = chars_of(domains[i]);
        if eq_chars(&d, domain) {
            assert(str_views(domains@)[i as int] == domain@);
            return true;
        }
        i = i + 1;
    }
    false
}

pub fn detect_mail_provider(
    email: &str,
    explicit_provider: Option<&str>,
    has_refresh_token: bool,
) -> (r: AppResult<MailProviderDefinition>)
    ensures
        r matches Ok(d) && d@ == provider_spec(
            detected_provider(
                email@,
                match explicit_provider {
                    Some(e) => Some(e@),
                    None => None,
                },
                has_refresh_token,
            ),
        ),
{
    if let Some(e) = explicit_provider {
        if let Some(id) = normalize_mail_provider_id(e) {
            return Ok(definition_for_id(id));
        }
    }
    if has_refresh_token {
        return Ok(definition_for_id("graph"));
    }
    let t = trim_str(email);
    let s = to_ascii_lower(&t);
    proof {
        crate::text::lemma_rfind_char(s@, '@');
    }
    let domain = match rfind_char_exec(&s, '@') {
        Some(i) => {
            assert(rfind_char(s@, '@') == Some(i as int));
            assert(i < s.len());
            subrange(&s, i + 1, s.len())
        },
        None => Vec::new(),
    };
    assert(domain@ =~= email_domain(email@));
    let d0 = definition_for_id("graph");
    if domain_listed(&d0.domains, &domain) {
        return Ok(d0);
    }
    let d1 = definition_for_id("gmail");
    if domain_listed(&d1.domains, &domain) {
        return Ok(d1);
    }
    let d2 = definition_for_id("qq");
    if domain_listed(&d2.domains, &domain) {
        return Ok(d2);
    }
    let d3 = definition_for_id("imap");
    if domain_listed(&d3.domains, &domain) {
        return Ok(d3);
    }
    let d4 = definition_for_id("netease_163");
    if domain_listed(&d4.domains, &domain) {
        return Ok(d4);
    }
    Ok(definition_for_id("imap_custom"))
}

pub const GRAPH_SCOPE: &'static str = "offline_access https://graph.microsoft.com/Mail.Read https://graph.microsoft.com/Mail.ReadWrite https://graph.microsoft.com/User.Read";

pub const IMAP_OAUTH_SCOPE: &'static str = "offline_access https://outlook.office.com/IMAP.AccessAsUser.All";

/// An optional string argument taken as text, absent meaning empty.
pub open spec fn opt_text(v: Option<&str>) -> Seq<char> {
    match v {
        Some(s) => s@,
        None => Seq::empty(),
    }
}

/// The OAuth scope requested for a Microsoft provider: IMAP access for the
/// `imap` provider, Graph mail access otherwise.
pub open spec fn oauth_scope_for(provider: Seq<char>) -> Seq<char> {
    if lower(trim(provider)) == "imap"@ {
        IMAP_OAUTH_SCOPE@
    } else {
        GRAPH_SCOPE@
    }
}

pub fn microsoft_oauth_scope(provider: Option<&str>) -> (r: &'static str)
    ensures
        r@ == oauth_scope_for(opt_text(provider)),
{
    let p = match provider {
        Some(v) => chars_of(v),
        None => Vec::new(),
    };
    let t = trim_chars(&p);
    let l = to_ascii_lower(&t);
    if eq_str(&l, "imap") {
        IMAP_OAUTH_SCOPE
    } else {
        GRAPH_SCOPE
    }
}

/// The OAuth flow chosen for a provider name: Graph by default, Graph or
/// IMAP when named; Gmail OAuth is refused and so is any other provider.
pub open spec fn oauth_provider_choice(value: Seq<char>) -> Result<Seq<char>, Seq<char>> {
    let v = trim(value);
    if v.len() == 0 {
        Ok("graph"@)
    } else if normalize_provider(v) == Some("graph"@) {
        Ok("graph"@)
    } else if normalize_provider(v) == Some("imap"@) {
        Ok("imap"@)
    } else if normalize_provider(v) == Some("gmail"@) {
        Err("Gmail OAuth is disabled; use IMAP app password"@)
    } else {
        Err("unsupported OAuth provider: "@ + v)
    }
}

pub fn normalize_oauth_provider(provider: Option<&str>) -> (r: AppResult<&'static str>)
    ensures
        match oauth_provider_choice(opt_text(provider)) {
            Ok(id) => r matches Ok(x) && x@ == id,
            Err(msg) => r matches Err(e) && is_invalid_input(e, msg),
        },
{
    let p = match provider {
        Some(v) => chars_of(v),
        None => Vec::new(),
    };
    let v = trim_chars(&p);
    if v.len() == 0 {
        return Ok("graph");
    }
    let vs = string_of(&v);
    proof {
        crate::text::lemma_trim_idempotent(opt_text(provider));
    }
    match normalize_mail_provider_id(vs.as_str()) {
        Some(id) => {
            let idc = chars_of(id);
            if eq_str(&idc, "graph") {
                Ok("graph")
            } else if eq_str(&idc, "imap") {
                Ok("imap")
            } else if eq_str(&idc, "gmail") {
                Err(invalid_input("Gmail OAuth is disabled; use IMAP app password"))
            } else {
                let mut m = chars_of("unsupported OAuth provider: ");
                append_chars(&mut m, &v);
                Err(invalid_input_chars(&m))
            }
        },
        None => {
            let mut m = chars_of("unsupported OAuth provider: ");
            append_chars(&mut m, &v);
            Err(invalid_input_chars(&m))
        },
    }
}

/// The application folders a refresh of `folder` reads.  Deleted items are
/// read only when asked for by name; every other request reads inbox and junk.
pub open spec fn folders_for_spec(folder: Seq<char>) -> Seq<Seq<char>> {
    let f = lower(folder);
    if f == "inbox"@ {
        seq!["inbox"@]
    } else if f == "junk"@ || f == "junkemail"@ {
        seq!["junkemail"@]
    } else if f == "deleted"@ || f == "deleteditems"@ {
        seq!["deleteditems"@]
    } else {
        seq!["inbox"@, "junkemail"@]
    }
}

pub fn folders_for(folder: &str) -> (r: Vec<&'static str>)
    ensures
        str_views(r@) == folders_for_spec(folder@),
{
    let f = to_ascii_lower(&chars_of(folder));
    let r = if eq_str(&f, "inbox") {
        vec!["inbox"]
    } else if eq_str(&f, "junk") || eq_str(&f, "junkemail") {
        vec!["junkemail"]
    } else if eq_str(&f, "deleted") || eq_str(&f, "deleteditems") {
        vec!["deleteditems"]
    } else {
        vec!["inbox", "junkemail"]
    };
    assert(str_views(r@) =~= folders_for_spec(folder@));
    r
}

/// Page size of one Graph list request: what remains, within 1..=1000.
pub fn graph_message_page_size(remaining: usize) -> (r: usize)
    ensures
        r == if remaining < 1 {
            1
        } else if remaining > GRAPH_MESSAGE_PAGE_MAX_TOP {
            GRAPH_MESSAGE_PAGE_MAX_TOP
        } else {
            remaining
        },
{
    if remaining < 1 {
        1
    } else if remaining > GRAPH_MESSAGE_PAGE_MAX_TOP {
        GRAPH_MESSAGE_PAGE_MAX_TOP
    } else {
        remaining
    }
}

/// The fields a Graph message listing selects: only ids, dates and read
/// state where the folder already has cached messages.
pub open spec fn graph_select(brief: bool) -> Seq<char> {
    if brief {
        "id,receivedDateTime,isRead"@
    } else {
        "id,subject,from,toRecipients,ccRecipients,receivedDateTime,isRead,hasAttachments,bodyPreview,body"@
    }
}

/// The first page of a Graph message listing: newest first, at most one
/// page of the messages wanted.
pub open spec fn graph_messages_link(folder: Seq<char>, wanted: nat, brief: bool) -> Seq<char> {
    let page = if wanted < 1 {
        1
    } else if wanted > GRAPH_MESSAGE_PAGE_MAX_TOP {
        GRAPH_MESSAGE_PAGE_MAX_TOP as nat
    } else {
        wanted
    };
    "https://graph.microsoft.com/v1.0/me/mailFolders/"@ + folder + "/messages?$top="@ + decimal(page)
        + "&$orderby=receivedDateTime%20desc&$select="@ + graph_select(brief)
}

pub fn graph_messages_url(folder: &str, wanted: usize, brief: bool) -> (r: String)
    ensures
        r@ == graph_messages_link(folder@, wanted as nat, brief),
{
    let mut u = chars_of("https://graph.microsoft.com/v1.0/me/mailFolders/");
    append_str(&mut u, folder);
    append_str(&mut u, "/messages?$top=");
    append_chars(&mut u, &decimal_u64(graph_message_page_size(wanted) as u64));
    append_str(&mut u, "&$orderby=receivedDateTime%20desc&$select=");
    if brief {
        append_str(&mut u, "id,receivedDateTime,isRead");
    } else {
        append_str(
            &mut u,
            "id,subject,from,toRecipients,ccRecipients,receivedDateTime,isRead,hasAttachments,bodyPreview,body",
        );
    }
    string_of(&u)
}

/// How many messages a listing still wants after a page of `page_count`:
/// `None` once it has enough or a page came back empty.
pub fn graph_remaining_after_page(remaining: usize, page_count: usize) -> (r: Option<usize>)
    ensures
        r == if page_count >= remaining || page_count == 0 {
            None
        } else {
            Some((remaining - page_count) as usize)
        },
{
    if page_count >= remaining || page_count == 0 {
        None
    } else {
        Some(remaining - page_count)
    }
}

/// A mailbox's UIDVALIDITY changed only when both the saved and the current
/// values are known and differ.
pub fn imap_uid_validity_changed(saved: Option<u32>, current: Option<u32>) -> (r: bool)
    ensures
        r == (saved is Some && current is Some && saved->0 != current->0),
{
    match (saved, current) {
        (Some(saved), Some(current)) => saved != current,
        _ => false,
    }
}

/// Appends a candidate unless it is empty or already present.
pub open spec fn push_unique(vs: Seq<Seq<char>>, c: Seq<char>) -> Seq<Seq<char>> {
    if c.len() > 0 && !vs.contains(c) {
        vs.push(c)
    } else {
        vs
    }
}

/// The name with one pair of surrounding double quotes removed.
pub open spec fn unquoted_name(raw: Seq<char>) -> Seq<char> {
    if raw.len() >= 2 && raw[0] == '"' && raw.last() == '"' {
        raw.subrange(1, raw.len() - 1)
    } else {
        raw
    }
}

/// The spellings tried when selecting an IMAP mailbox: as given, unquoted,
/// and quoted, without repeats.
pub open spec fn select_variants(folder_name: Seq<char>) -> Seq<Seq<char>> {
    let raw = trim(folder_name);
    if raw.len() == 0 {
        Seq::empty()
    } else {
        let u = unquoted_name(raw);
        push_unique(push_unique(push_unique(Seq::empty(), raw), u), seq!['"'] + u + seq!['"'])
    }
}

fn push_unique_exec(vs: &mut Vec<String>, c: &Vec<char>)
    ensures
        views_s(final(vs)@) == push_unique(views_s(old(vs)@), c@),
{
    if c.len() == 0 {
        return;
    }
    let mut i: usize = 0;
    while i < vs.len()
        invariant
            0 <= i <= vs.len(),
            forall|k: int| 0 <= k < i ==> vs@[k]@ != c@,
        decreases vs.len() - i,
    {
        let e = chars_of(vs[i].as_str());
        if eq_chars(&e, c) {
            assert(views_s(vs@)[i as int] == c@);
            return;
        }
        i = i + 1;
    }
    assert(!views_s(vs@).contains(c@)) by {
        if views_s(vs@).contains(c@) {
            let k = choose|k: int| 0 <= k < views_s(vs@).len() && views_s(vs@)[k] == c@;
            assert(vs@[k]@ == c@);
        }
    }
    let ghost old_v = views_s(vs@);
    vs.push(string_of(c));
    assert(views_s(vs@) =~= old_v.push(c@));
}

/// Views of a vector of strings.
pub open spec fn views_s(v: Seq<String>) -> Seq<Seq<char>> {
    Seq::new(v.len(), |i: int| v[i]@)
}

pub fn build_imap_select_variants(folder_name: &str) -> (r: Vec<String>)
    ensures
        views_s(r@) == select_variants(folder_name@),
{
    let raw = trim_str(folder_name);
    let mut variants: Vec<String> = Vec::new();
    if raw.len() == 0 {
        assert(views_s(variants@) =~= select_variants(folder_name@));
        return variants;
    }
    let unquoted = if raw.len() >= 2 && raw[0] == '"' && raw[raw.len() - 1] == '"' {
        subrange(&raw, 1, raw.len() - 1)
    } else {
        subrange(&raw, 0, raw.len())
    };
    assert(unquoted@ =~= unquoted_name(raw@));
    let mut quoted: Vec<char> = Vec::new();
    quoted.push('"');
    append_chars(&mut quoted, &unquoted);
    quoted.push('"');
    assert(quoted@ =~= seq!['"'] + unquoted@ + seq!['"']);
    assert(views_s(variants@) =~= Seq::<Seq<char>>::empty());
    push_unique_exec(&mut variants, &raw);
    push_unique_exec(&mut variants, &unquoted);
    push_unique_exec(&mut variants, &quoted);
    variants
}

/// Which server mailbox backs each application folder, as discovered from
/// the server's mailbox list.
#[derive(Debug, Clone, Default)]
pub struct ImapMailboxMap {
    pub inbox: Option<String>,
    pub junkemail: Option<String>,
    pub deleteditems: Option<String>,
}

impl View for ImapMailboxMap {
    type V = (Option<Seq<char>>, Option<Seq<char>>, Option<Seq<char>>);

    open spec fn view(&self) -> Self::V {
        (opt_chars(self.inbox), opt_chars(self.junkemail), opt_chars(self.deleteditems))
    }
}

/// `map` after recording `mailbox` for `app_folder` unless one is recorded.
pub open spec fn map_set_if_missing(
    map: (Option<Seq<char>>, Option<Seq<char>>, Option<Seq<char>>),
    app_folder: Seq<char>,
    mailbox: Seq<char>,
) -> (Option<Seq<char>>, Option<Seq<char>>, Option<Seq<char>>) {
    if app_folder == "junkemail"@ {
        (map.0, if map.1 is None { Some(mailbox) } else { map.1 }, map.2)
    } else if app_folder == "deleteditems"@ {
        (map.0, map.1, if map.2 is None { Some(mailbox) } else { map.2 })
    } else {
        (if map.0 is None { Some(mailbox) } else { map.0 }, map.1, map.2)
    }
}

/// The server mailbox for an application folder, with the conventional
/// names as fallbacks.
pub open spec fn map_mailbox_for(
    map: (Option<Seq<char>>, Option<Seq<char>>, Option<Seq<char>>),
    app_folder: Seq<char>,
) -> Seq<char> {
    if app_folder == "junk"@ || app_folder == "junkemail"@ {
        match map.1 {
            Some(m) => m,
            None => "Junk"@,
        }
    } else if app_folder == "deleted"@ || app_folder == "deleteditems"@ {
        match map.2 {
            Some(m) => m,
            None => "Deleted"@,
        }
    } else {
        match map.0 {
            Some(m) => m,
            None => "INBOX"@,
        }
    }
}

impl ImapMailboxMap {
    pub fn set_if_missing(&mut self, app_folder: &str, mailbox: &str)
        ensures
            final(self)@ == map_set_if_missing(old(self)@, app_folder@, mailbox@),
    {
        let f = chars_of(app_folder);
        let m = string_of(&chars_of(mailbox));
        if eq_str(&f, "junkemail") {
            if self.junkemail.is_none() {
                self.junkemail = Some(m);
            }
        } else if eq_str(&f, "deleteditems") {
            if self.deleteditems.is_none() {
                self.deleteditems = Some(m);
            }
        } else {
            if self.inbox.is_none() {
                self.inbox = Some(m);
            }
        }
    }

    pub fn mailbox_for(&self, app_folder: &str) -> (r: String)
        ensures
            r@ == map_mailbox_for(self@, app_folder@),
    {
        let f = chars_of(app_folder);
        if eq_str(&f, "junk") || eq_str(&f, "junkemail") {
            match &self.junkemail {
                Some(m) => m.clone(),
                None => string_of(&chars_of("Junk")),
            }
        } else if eq_str(&f, "deleted") || eq_str(&f, "deleteditems") {
            match &self.deleteditems {
                Some(m) => m.clone(),
                None => string_of(&chars_of("Deleted")),
            }
        } else {
            match &self.inbox {
                Some(m) => m.clone(),
                None => string_of(&chars_of("INBOX")),
            }
        }
    }
}

proof fn lemma_plain_name(s: Seq<char>)
    requires
        s.len() > 0,
        !crate::text::is_ws(s[0]),
        !crate::text::is_ws(s.last()),
        forall|i: int| 0 <= i < s.len() ==> ascii_lower(#[trigger] s[i]) == s[i],
    ensures
        lower(trim(s)) == s,
{
    crate::text::lemma_lead_ws(s, 0);
    crate::text::lemma_trail_ws(s, s.len() as int);
    assert(trim(s) =~= s);
    assert(lower(s) =~= s);
}

/// Each provider of the registry is named by its own id: normalizing the
/// id gives it back, and its definition carries it.
pub proof fn law_registry_ids_name_themselves(id: Seq<char>)
    requires
        is_registry_id(id),
    ensures
        normalize_provider(id) == Some(id),
        provider_spec(id).id == id,
{
    reveal_strlit("graph");
    reveal_strlit("outlook");
    reveal_strlit("microsoft");
    reveal_strlit("msgraph");
    reveal_strlit("gmail");
    reveal_strlit("google");
    reveal_strlit("googlemail");
    reveal_strlit("qq");
    reveal_strlit("qqmail");
    reveal_strlit("imap");
    reveal_strlit("outlook_imap");
    reveal_strlit("netease_163");
    reveal_strlit("163");
    reveal_strlit("netease");
    reveal_strlit("163mail");
    reveal_strlit("imap_custom");
    reveal_strlit("custom_imap");
    reveal_strlit("custom");
    assert("gmail"@[1] != "graph"@[1]);
    assert("imap_custom"@[0] != "netease_163"@[0]);
    lemma_plain_name(id);
}

/// Every UID a search selected goes to exactly one side of the split, in
/// the order selected: the two sides together are as long as the
/// selection, and hold exactly its UIDs.
pub proof fn law_uid_split_is_a_partition(
    uids: Seq<u32>,
    cached_ids: Option<Seq<Seq<char>>>,
    validity_changed: bool,
)
    ensures
        uids_where(uids, cached_ids, validity_changed, true).len() + uids_where(
            uids,
            cached_ids,
            validity_changed,
            false,
        ).len() == uids.len(),
        forall|u: u32|
            uids.contains(u) <==> (uids_where(uids, cached_ids, validity_changed, true).contains(u)
                || uids_where(uids, cached_ids, validity_changed, false).contains(u)),
    decreases uids.len(),
{
    if uids.len() > 0 {
        let init = uids.drop_last();
        law_uid_split_is_a_partition(init, cached_ids, validity_changed);
        assert(uids =~= init.push(uids.last()));
        assert forall|u: u32|
            uids.contains(u) <==> (uids_where(uids, cached_ids, validity_changed, true).contains(u)
                || uids_where(uids, cached_ids, validity_changed, false).contains(u)) by {
            vstd::seq_lib::lemma_seq_contains_after_push(init, uids.last(), u);
            vstd::seq_lib::lemma_seq_contains_after_push(
                uids_where(init, cached_ids, validity_changed, true),
                uids.last(),
                u,
            );
            vstd::seq_lib::lemma_seq_contains_after_push(
                uids_where(init, cached_ids, validity_changed, false),
                uids.last(),
                u,
            );
        }
    }
}

/// Once a folder has a mailbox, recording another one for it changes
/// nothing: the folder keeps resolving to the first mailbox recorded.
pub proof fn law_mailbox_map_first_wins(
    map: (Option<Seq<char>>, Option<Seq<char>>, Option<Seq<char>>),
    app_folder: Seq<char>,
    first: Seq<char>,
    second: Seq<char>,
)
    requires
        app_folder == "inbox"@ || app_folder == "junkemail"@ || app_folder == "deleteditems"@,
        map_mailbox_slot(map, app_folder) is None,
    ensures
        map_mailbox_for(
            map_set_if_missing(map_set_if_missing(map, app_folder, first), app_folder, second),
            app_folder,
        ) == first,
{
    reveal_strlit("inbox");
    reveal_strlit("junkemail");
    reveal_strlit("deleteditems");
    reveal_strlit("junk");
    reveal_strlit("deleted");
    assert("inbox"@.len() == 5);
    assert("junkemail"@.len() == 9);
    assert("deleteditems"@.len() == 12);
    assert("junk"@.len() == 4);
    assert("deleted"@.len() == 7);
}

/// The slot of the map that an application folder's mailbox is stored in.
pub open spec fn map_mailbox_slot(
    map: (Option<Seq<char>>, Option<Seq<char>>, Option<Seq<char>>),
    app_folder: Seq<char>,
) -> Option<Seq<char>> {
    if app_folder == "junkemail"@ {
        map.1
    } else if app_folder == "deleteditems"@ {
        map.2
    } else {
        map.0
    }
}

/// `normalize_imap_mailbox_name` on one character: ASCII whitespace, `_`
/// and `-` are dropped, `\` becomes `/`, ASCII letters are lower-cased.
pub open spec fn mailbox_name_char(c: char) -> Seq<char> {
    if is_ascii_ws(c) || c == '_' || c == '-' {
        Seq::empty()
    } else if c == '\\' {
        seq!['/']
    } else {
        seq![ascii_lower(c)]
    }
}

pub open spec fn normalized_mailbox_name(s: Seq<char>) -> Seq<char>
    decreases s.len(),
{
    if s.len() == 0 {
        Seq::empty()
    } else {
        normalized_mailbox_name(s.drop_last()) + mailbox_name_char(s.last())
    }
}

pub fn normalize_imap_mailbox_name(value: &str) -> (r: String)
    ensures
        r@ == normalized_mailbox_name(value@),
{
    let v = chars_of(value);
    let mut out: Vec<char> = Vec::new();
    let mut i: usize = 0;
    while i < v.len()
        invariant
            0 <= i <= v.len(),
            out@ == normalized_mailbox_name(v@.take(i as int)),
        decreases v.len() - i,
    {
        let c = v[i];
        let ghost t = v@.take(i + 1);
        assert(t.drop_last() =~= v@.take(i as int));
        if is_ascii_whitespace(c) || c == '_' || c == '-' {
            assert(normalized_mailbox_name(t) =~= out@);
        } else if c == '\\' {
            out.push('/');
        } else {
            out.push(ascii_lower_char(c));
        }
        i = i + 1;
    }
    assert(v@.take(v.len() as int) =~= v@);
    string_of(&out)
}

/// Mailbox names (normalised) that mean the inbox.
pub open spec fn is_inbox_name(n: Seq<char>) -> bool {
    n == "inbox"@ || n == "收件箱"@ || n == "收件匣"@
}

pub open spec fn is_junk_name(n: Seq<char>) -> bool {
    n == "junk"@ || n == "junkemail"@ || n == "spam"@ || n == "bulkmail"@ || n == "垃圾邮件"@
        || n == "垃圾郵件"@ || n == "垃圾信"@
}

pub open spec fn is_deleted_name(n: Seq<char>) -> bool {
    n == "deleted"@ || n == "deleteditems"@ || n == "deletedmessages"@ || n == "trash"@ || n
        == "bin"@ || n == "已删除"@ || n == "已刪除"@ || n == "已删除邮件"@ || n == "已刪除郵件"@
        || n == "垃圾箱"@ || n == "回收站"@
}

/// The last `/`-separated segment of a name.
pub open spec fn name_leaf(n: Seq<char>) -> Seq<char> {
    match rfind_char(n, '/') {
        Some(i) => n.skip(i + 1),
        None => n,
    }
}

/// The application folder a server mailbox stands for: special-use
/// attributes first, then well-known names of the mailbox or its last segment.
pub open spec fn classify_mailbox(attributes: Seq<Seq<char>>, name: Seq<char>) -> Option<
    Seq<char>,
> {
    if attributes.contains("inbox"@) {
        Some("inbox"@)
    } else if attributes.contains("junk"@) || attributes.contains("spam"@) {
        Some("junkemail"@)
    } else if attributes.contains("trash"@) || attributes.contains("deleted"@) {
        Some("deleteditems"@)
    } else {
        let n = normalized_mailbox_name(name);
        if is_inbox_name(n) {
            Some("inbox"@)
        } else {
            let leaf = name_leaf(n);
            if is_inbox_name(leaf) {
                Some("inbox"@)
            } else if is_junk_name(leaf) {
                Some("junkemail"@)
            } else if is_deleted_name(leaf) {
                Some("deleteditems"@)
            } else {
                None
            }
        }
    }
}

fn has_attribute(attributes: &[String], name: &str) -> (r: bool)
    ensures
        r == views_s(attributes@).contains(name@),
{
    let n = chars_of(name);
    let mut i: usize = 0;
    while i < attributes.len()
        invariant
            0 <= i <= attributes.len(),
            n@ == name@,
            forall|k: int| 0 <= k < i ==> attributes@[k]@ != name@,
        decreases attributes.len() - i,
    {
        let a = chars_of(attributes[i].as_str());
        if eq_chars(&a, &n) {
            assert(views_s(attributes@)[i as int] == name@);
            return true;
        }
        i = i + 1;
    }
    assert(!views_s(attributes@).contains(name@)) by {
        if views_s(attributes@).contains(name@) {
            let k = choose|k: int|
                0 <= k < views_s(attributes@).len() && views_s(attributes@)[k] == name@;
            assert(attributes@[k]@ == name@);
        }
    }
    false
}

fn is_inbox_name_exec(n: &Vec<char>) -> (r: bool)
    ensures
        r == is_inbox_name(n@),
{
    eq_str(n, "inbox") || eq_str(n, "收件箱") || eq_str(n, "收件匣")
}

pub fn classify_imap_mailbox(attributes: &[String], mailbox_name: &str) -> (r: Option<
    &'static str,
>)
    ensures
        match classify_mailbox(views_s(attributes@), mailbox_name@) {
            Some(f) => r matches Some(x) && x@ == f,
            None => r is None,
        },
{
    if has_attribute(attributes, "inbox") {
        return Some("inbox");
    }
    if has_attribute(attributes, "junk") || has_attribute(attributes, "spam") {
        return Some("junkemail");
    }
    if has_attribute(attributes, "trash") || has_attribute(attributes, "deleted") {
        return Some("deleteditems");
    }
    let normalized = normalize_imap_mailbox_name(mailbox_name);
    let n = chars_of(normalized.as_str());
    if is_inbox_name_exec(&n) {
        return Some("inbox");
    }
    let leaf = match rfind_char_exec(&n, '/') {
        Some(i) => {
            proof {
                crate::text::lemma_rfind_char(n@, '/');
            }
            assert(i < n.len());
            subrange(&n, i + 1, n.len())
        },
        None => subrange(&n, 0, n.len()),
    };
    assert(leaf@ =~= name_leaf(n@));
    if is_inbox_name_exec(&leaf) {
        Some("inbox")
    } else if eq_str(&leaf, "junk") || eq_str(&leaf, "junkemail") || eq_str(&leaf, "spam")
        || eq_str(&leaf, "bulkmail") || eq_str(&leaf, "垃圾邮件") || eq_str(&leaf, "垃圾郵件")
        || eq_str(&leaf, "垃圾信") {
        Some("junkemail")
    } else if eq_str(&leaf, "deleted") || eq_str(&leaf, "deleteditems") || eq_str(
        &leaf,
        "deletedmessages",
    ) || eq_str(&leaf, "trash") || eq_str(&leaf, "bin") || eq_str(&leaf, "已删除") || eq_str(
        &leaf,
        "已刪除",
    ) || eq_str(&leaf, "已删除邮件") || eq_str(&leaf, "已刪除郵件") || eq_str(&leaf, "垃圾箱")
        || eq_str(&leaf, "回收站") {
        Some("deleteditems")
    } else {
        None
    }
}

/// An account served by NetEase (163, 126 or yeah.net IMAP).
pub open spec fn is_netease_account(provider: Seq<char>, imap_host: Seq<char>) -> bool {
    let host = lower(trim(imap_host));
    eq_ignore_case(provider, "netease_163"@) || host == "imap.163.com"@ || host == "imap.126.com"@
        || host == "imap.yeah.net"@
}

pub fn is_netease_imap_account(account: &AccountCredentials) -> (r: bool)
    ensures
        r == is_netease_account(account.provider@, account.imap_host@),
{
    let host = to_ascii_lower(&trim_str(account.imap_host.as_str()));
    let p = chars_of(account.provider.as_str());
    eq_ignore_case_str(&p, "netease_163") || eq_str(&host, "imap.163.com") || eq_str(
        &host,
        "imap.126.com",
    ) || eq_str(&host, "imap.yeah.net")
}

/// IMAP servers of QQ, NetEase, Gmail and custom providers receive an `ID`
/// command after login.
pub open spec fn sends_client_id(provider: Seq<char>, imap_host: Seq<char>) -> bool {
    let p = lower(trim(provider));
    is_netease_account(provider, imap_host) || p == "qq"@ || p == "netease_163"@ || p
        == "imap_custom"@ || p == "gmail"@
}

pub fn should_send_imap_client_id(account: &AccountCredentials) -> (r: bool)
    ensures
        r == sends_client_id(account.provider@, account.imap_host@),
{
    if is_netease_imap_account(account) {
        return true;
    }
    let p = to_ascii_lower(&trim_str(account.provider.as_str()));
    eq_str(&p, "qq") || eq_str(&p, "netease_163") || eq_str(&p, "imap_custom") || eq_str(
        &p,
        "gmail",
    )
}

/// The first `n` words of `s`, separated by single spaces.
pub open spec fn preview_of(s: Seq<char>, n: nat) -> Seq<char> {
    let w = words_of(s);
    join(if n < w.len() { w.take(n as int) } else { w }, seq![' '])
}

pub fn text_preview(value: &str, words: usize) -> (r: String)
    ensures
        r@ == preview_of(value@, words as nat),
{
    let v = chars_of(value);
    let all = words_exec(&v);
    let mut taken: Vec<Vec<char>> = Vec::new();
    let mut i: usize = 0;
    while i < all.len() && i < words
        invariant
            0 <= i <= all.len(),
            i <= words,
            views(taken@) == views(all@).take(i as int),
        decreases all.len() - i,
    {
        let w = subrange(&all[i], 0, all[i].len());
        assert(w@ =~= all@[i as int]@);
        let ghost old_t = views(taken@);
        taken.push(w);
        assert(views(taken@) =~= old_t.push(views(all@)[i as int]));
        assert(views(taken@) =~= views(all@).take(i + 1));
        i = i + 1;
    }
    proof {
        if words as nat >= views(all@).len() {
            assert(views(all@).take(i as int) =~= views(all@));
        }
    }
    let mut sep: Vec<char> = Vec::new();
    sep.push(' ');
    assert(sep@ =~= seq![' ']);
    let joined = join_exec(&taken, &sep);
    string_of(&joined)
}

/// An e-mail address as Graph reports it.
#[derive(Debug, Clone)]
pub struct GraphEmailAddress {
    pub name: Option<String>,
    pub address: String,
}

/// A recipient entry as Graph reports it.
#[derive(Debug, Clone)]
pub struct GraphRecipient {
    pub email_address: Option<GraphEmailAddress>,
}

/// `Name <address>` when both are present, else whichever is present.
pub open spec fn graph_address_text(name: Option<Seq<char>>, address: Seq<char>) -> Seq<char> {
    let a = trim(address);
    let n = match name {
        Some(x) => trim(x),
        None => Seq::empty(),
    };
    if n.len() > 0 && a.len() > 0 {
        n + " <"@ + a + ">"@
    } else if n.len() > 0 {
        n
    } else {
        a
    }
}

pub fn format_graph_email_address(email: GraphEmailAddress) -> (r: String)
    ensures
        r@ == graph_address_text(opt_chars(email.name), email.address@),
{
    let address = trim_str(email.address.as_str());
    let name = match &email.name {
        Some(n) => trim_str(n.as_str()),
        None => Vec::new(),
    };
    proof {
        if email.name is None {
            assert(name@ =~= Seq::<char>::empty());
        }
    }
    if name.len() > 0 && address.len() > 0 {
        let mut out = name;
        append_str(&mut out, " <");
        append_chars(&mut out, &address);
        append_str(&mut out, ">");
        string_of(&out)
    } else if name.len() > 0 {
        string_of(&name)
    } else {
        string_of(&address)
    }
}

/// The addresses of a recipient list that carry one.
pub open spec fn recipient_addresses(v: Seq<GraphRecipient>) -> Seq<Seq<char>>
    decreases v.len(),
{
    if v.len() == 0 {
        Seq::empty()
    } else {
        let rest = recipient_addresses(v.drop_last());
        match v.last().email_address {
            Some(e) => rest.push(e.address@),
            None => rest,
        }
    }
}

/// The recipients' addresses joined with `", "`; nothing for no list.
pub fn recipients_to_string(value: Option<Vec<GraphRecipient>>) -> (r: String)
    ensures
        r@ == join(
            match value {
                Some(v) => recipient_addresses(v@),
                None => Seq::empty(),
            },
            ", "@,
        ),
{
    let list = match value {
        Some(v) => v,
        None => Vec::new(),
    };
    let mut parts: Vec<Vec<char>> = Vec::new();
    let mut i: usize = 0;
    while i < list.len()
        invariant
            0 <= i <= list.len(),
            views(parts@) == recipient_addresses(list@.take(i as int)),
        decreases list.len() - i,
    {
        let ghost t = list@.take(i + 1);
        assert(t.drop_last() =~= list@.take(i as int));
        match &list[i].email_address {
            Some(e) => {
                let ghost old_p = views(parts@);
                parts.push(chars_of(e.address.as_str()));
                assert(views(parts@) =~= old_p.push(e.address@));
            },
            None => {},
        }
        i = i + 1;
    }
    assert(list@.take(list.len() as int) =~= list@);
    let sep = chars_of(", ");
    string_of(&join_exec(&parts, &sep))
}

/// Every requested UID is among the fetched message ids (in decimal).
pub open spec fn uids_covered(message_ids: Seq<Seq<char>>, uids: Seq<u32>) -> bool {
    forall|k: int| 0 <= k < uids.len() ==> message_ids.contains(#[trigger] decimal(uids[k] as nat))
}

/// `v` holds a string equal to `target`.
pub fn strings_contain(v: &[String], target: &Vec<char>) -> (r: bool)
    ensures
        r == views_s(v@).contains(target@),
{
    let mut i: usize = 0;
    while i < v.len()
        invariant
            0 <= i <= v.len(),
            forall|m: int| 0 <= m < i ==> v@[m]@ != target@,
        decreases v.len() - i,
    {
        let id = chars_of(v[i].as_str());
        if eq_chars(&id, target) {
            assert(views_s(v@)[i as int] == target@);
            return true;
        }
        i = i + 1;
    }
    assert(!views_s(v@).contains(target@)) by {
        if views_s(v@).contains(target@) {
            let m = choose|m: int| 0 <= m < views_s(v@).len() && views_s(v@)[m] == target@;
            assert(v@[m]@ == target@);
        }
    }
    false
}

/// A UID whose message is already cached for the folder: never after its
/// UIDVALIDITY changed.
pub open spec fn uid_cached(uid: u32, cached_ids: Option<Seq<Seq<char>>>, validity_changed: bool) -> bool {
    &&& !validity_changed
    &&& cached_ids matches Some(ids)
    &&& ids.contains(decimal(uid as nat))
}

/// The UIDs, in order, that are (`cached`) or are not cached.
pub open spec fn uids_where(
    uids: Seq<u32>,
    cached_ids: Option<Seq<Seq<char>>>,
    validity_changed: bool,
    cached: bool,
) -> Seq<u32>
    decreases uids.len(),
{
    if uids.len() == 0 {
        Seq::empty()
    } else {
        let rest = uids_where(uids.drop_last(), cached_ids, validity_changed, cached);
        if uid_cached(uids.last(), cached_ids, validity_changed) == cached {
            rest.push(uids.last())
        } else {
            rest
        }
    }
}

/// Splits the UIDs a search selected into those already cached, whose read
/// state is refreshed, and those whose messages are fetched.
pub fn partition_imap_uids(
    selected: &[u32],
    cached_ids: Option<&[String]>,
    validity_changed: bool,
) -> (r: (Vec<u32>, Vec<u32>))
    ensures
        r.0@ == uids_where(selected@, opt_views(cached_ids), validity_changed, true),
        r.1@ == uids_where(selected@, opt_views(cached_ids), validity_changed, false),
{
    let mut cached: Vec<u32> = Vec::new();
    let mut fresh: Vec<u32> = Vec::new();
    let mut i: usize = 0;
    while i < selected.len()
        invariant
            0 <= i <= selected.len(),
            cached@ == uids_where(selected@.take(i as int), opt_views(cached_ids), validity_changed, true),
            fresh@ == uids_where(selected@.take(i as int), opt_views(cached_ids), validity_changed, false),
        decreases selected.len() - i,
    {
        let ghost t = selected@.take(i + 1);
        assert(t.drop_last() =~= selected@.take(i as int));
        let uid = selected[i];
        let is_cached = if validity_changed {
            false
        } else {
            match cached_ids {
                Some(ids) => strings_contain(ids, &decimal_u64(uid as u64)),
                None => false,
            }
        };
        if is_cached {
            cached.push(uid);
        } else {
            fresh.push(uid);
        }
        i = i + 1;
    }
    assert(selected@.take(selected.len() as int) =~= selected@);
    (cached, fresh)
}

pub open spec fn opt_views(v: Option<&[String]>) -> Option<Seq<Seq<char>>> {
    match v {
        Some(ids) => Some(views_s(ids@)),
        None => None,
    }
}

pub open spec fn strictly_descending(s: Seq<u32>) -> bool {
    forall|i: int, j: int| 0 <= i < j < s.len() ==> s[i] > s[j]
}

/// The refresh size a `top` asks for, kept between 1 and the maximum.
pub open spec fn refresh_limit(top: usize) -> int {
    if top < 1 {
        1
    } else if top > MAIL_REFRESH_MAX_TOP {
        MAIL_REFRESH_MAX_TOP as int
    } else {
        top as int
    }
}

/// `r` is the newest selection of `uids` for `top`: the largest of them,
/// largest first, each once, as many as the refresh size allows.
pub open spec fn is_newest_selection(r: Seq<u32>, uids: Seq<u32>, top: usize) -> bool {
    &&& strictly_descending(r)
    &&& r.len() <= refresh_limit(top)
    &&& forall|x: u32| r.contains(x) ==> uids.contains(x)
    &&& forall|x: u32| uids.contains(x) && !r.contains(x) ==> r.len() == refresh_limit(top) && x < r.last()
}

/// The newest UIDs a refresh looks at: the largest `top` (kept between 1
/// and the refresh maximum) of those found, largest first, each once.
pub fn newest_uids(uids: &[u32], top: usize) -> (r: Vec<u32>)
    ensures
        is_newest_selection(r@, uids@, top),
{
    let limit: usize = if top < 1 {
        1
    } else if top > MAIL_REFRESH_MAX_TOP {
        MAIL_REFRESH_MAX_TOP
    } else {
        top
    };
    let mut out: Vec<u32> = Vec::new();
    let mut i: usize = 0;
    while i < uids.len()
        invariant
            0 <= i <= uids.len(),
            strictly_descending(out@),
            forall|x: u32| out@.contains(x) <==> uids@.take(i as int).contains(x),
        decreases uids.len() - i,
    {
        let x = uids[i];
        let ghost before = out@;
        assert(uids@.take(i + 1) =~= uids@.take(i as int).push(x));
        let mut k: usize = 0;
        while k < out.len() && out[k] > x
            invariant
                0 <= k <= out.len(),
                out@ == before,
                strictly_descending(before),
                forall|y: u32| before.contains(y) <==> uids@.take(i as int).contains(y),
                forall|j: int| 0 <= j < k ==> out@[j] > x,
            decreases out.len() - k,
        {
            k = k + 1;
        }
        if k < out.len() && out[k] == x {
            assert(out@.contains(x));
            assert forall|y: u32| out@.contains(y) <==> (before.contains(y) || y == x) by {}
        } else {
            out.insert(k, x);
            assert forall|a: int, b: int| 0 <= a < b < out@.len() implies out@[a] > out@[b] by {
                if a < k as int && b > k as int {
                    assert(out@[b] == before[b - 1]);
                    if k < before.len() {
                        assert(before[k as int] < x);
                        if b - 1 > k as int {
                            assert(before[k as int] > before[b - 1]);
                        }
                    }
                }
                if a == k as int && b > k as int {
                    assert(before[k as int] < x);
                    if b - 1 > k as int {
                        assert(before[k as int] > before[b - 1]);
                    }
                }
                if a > k as int {
                    assert(out@[a] == before[a - 1]);
                    assert(out@[b] == before[b - 1]);
                }
            }
            assert forall|y: u32| out@.contains(y) <==> (before.contains(y) || y == x) by {
                if out@.contains(y) {
                    let j = choose|j: int| 0 <= j < out@.len() && out@[j] == y;
                    if j < k as int {
                        assert(before[j] == y);
                    } else if j > k as int {
                        assert(before[j - 1] == y);
                    }
                }
                if before.contains(y) {
                    let j = choose|j: int| 0 <= j < before.len() && before[j] == y;
                    if j < k as int {
                        assert(out@[j] == y);
                    } else {
                        assert(out@[j + 1] == y);
                    }
                }
                assert(out@[k as int] == x);
            }
        }
        assert forall|y: u32| out@.contains(y) <==> uids@.take(i + 1).contains(y) by {
            assert(uids@.take(i + 1) =~= uids@.take(i as int).push(x));
            vstd::seq_lib::lemma_seq_contains_after_push(uids@.take(i as int), x, y);
            assert(before.contains(y) <==> uids@.take(i as int).contains(y));
            assert(out@.contains(y) <==> (before.contains(y) || y == x));
        }
        i = i + 1;
    }
    assert(uids@.take(uids.len() as int) =~= uids@);
    let ghost all = out@;
    if out.len() > limit {
        out.truncate(limit);
    }
    assert(out@ =~= all.take(out@.len() as int));
    assert forall|x: u32| uids@.contains(x) && !out@.contains(x) implies out@.len() == limit && x
        < out@.last() by {
        assert(all.contains(x));
        let j = choose|j: int| 0 <= j < all.len() && all[j] == x;
        if j < out@.len() {
            assert(out@[j] == x);
        }
        assert(all[limit - 1] == out@[limit - 1]);
    }
    assert forall|x: u32| out@.contains(x) implies uids@.contains(x) by {
        let j = choose|j: int| 0 <= j < out@.len() && out@[j] == x;
        assert(all[j] == x);
        assert(all.contains(x));
        assert(uids@.take(uids.len() as int).contains(x));
    }
    out
}

/// A UID fetch returned a body for every requested UID.
pub fn fetched_imap_uids_cover(message_ids: &[String], requested_uids: &[u32]) -> (r: bool)
    ensures
        r == uids_covered(views_s(message_ids@), requested_uids@),
{
    let mut k: usize = 0;
    while k < requested_uids.len()
        invariant
            0 <= k <= requested_uids.len(),
            forall|j: int|
                0 <= j < k ==> views_s(message_ids@).contains(
                    #[trigger] decimal(requested_uids@[j] as nat),
                ),
        decreases requested_uids.len() - k,
    {
        let uid = decimal_u64(requested_uids[k] as u64);
        if !strings_contain(message_ids, &uid) {
            return false;
        }
        k = k + 1;
    }
    true
}

// ---------------------------------------------------------------------------
// Graph messages
// ---------------------------------------------------------------------------

/// The body of a Graph message.
#[derive(Debug, Clone)]
pub struct GraphBody {
    pub content_type: String,
    pub content: String,
}

/// A message as a Graph listing reports it.
#[derive(Debug, Clone)]
pub struct GraphMessage {
    pub id: String,
    pub subject: Option<String>,
    pub from: Option<GraphRecipient>,
    pub to_recipients: Option<Vec<GraphRecipient>>,
    pub cc_recipients: Option<Vec<GraphRecipient>>,
    pub received_date_time: Option<String>,
    pub is_read: Option<bool>,
    pub has_attachments: Option<bool>,
    pub body_preview: Option<String>,
    pub body: Option<GraphBody>,
}

/// A Graph message as the cache keeps it; the receipt time is in RFC 3339
/// form and in seconds since the epoch.
#[derive(Debug, Clone)]
pub struct GraphMessageContent {
    pub folder: String,
    pub provider_message_id: String,
    pub subject: String,
    pub sender: String,
    pub recipients: String,
    pub cc: String,
    pub received_at: String,
    pub received_seconds: i64,
    pub is_read: bool,
    pub has_attachments: bool,
    pub body_preview: String,
    pub body: Option<String>,
    pub body_type: String,
}

pub open spec fn recipients_text(value: Option<Vec<GraphRecipient>>) -> Seq<char> {
    join(
        match value {
            Some(v) => recipient_addresses(v@),
            None => Seq::empty(),
        },
        ", "@,
    )
}

/// What the cache keeps of a Graph message: `(no subject)` without a
/// subject; the sender's address; the recipients and cc joined; the body's
/// type lower-cased (`text` without a body) and its content where not
/// empty; unread and without attachments where Graph does not say.  A
/// message without a receipt time is given the current time.
pub fn graph_message_content(m: GraphMessage, folder: &str) -> (r: GraphMessageContent)
    ensures
        r.folder@ == folder@,
        r.provider_message_id@ == m.id@,
        r.subject@ == match m.subject {
            Some(s) => s@,
            None => "(no subject)"@,
        },
        r.sender@ == match m.from {
            Some(GraphRecipient { email_address: Some(a) }) => graph_address_text(opt_chars(a.name), a.address@),
            _ => Seq::empty(),
        },
        r.recipients@ == recipients_text(m.to_recipients),
        r.cc@ == recipients_text(m.cc_recipients),
        m.received_date_time matches Some(t) ==> r.received_at@ == t@ && (
        crate::clock::rfc3339_instant(t@) matches Some(i) ==> r.received_seconds == i.seconds),
        r.is_read == (m.is_read == Some(true)),
        r.has_attachments == (m.has_attachments == Some(true)),
        r.body_preview@ == text_or_empty(m.body_preview),
        r.body_type@ == match m.body {
            Some(b) => lower(b.content_type@),
            None => "text"@,
        },
        opt_chars(r.body) == match m.body {
            Some(b) => if b.content@.len() > 0 {
                Some(b.content@)
            } else {
                None
            },
            None => None,
        },
{
    let received_at = match &m.received_date_time {
        Some(t) => string_of(&chars_of(t.as_str())),
        None => crate::clock::now_rfc3339(),
    };
    let received_seconds = match crate::clock::parse_rfc3339_instant(received_at.as_str()) {
        Some(i) => i.seconds,
        None => crate::clock::now_instant().seconds,
    };
    let (body_type, body) = match &m.body {
        Some(b) => (
            string_of(&to_ascii_lower(&chars_of(b.content_type.as_str()))),
            if b.content.as_str().unicode_len() > 0 {
                Some(string_of(&chars_of(b.content.as_str())))
            } else {
                None
            },
        ),
        None => (string_of(&chars_of("text")), None),
    };
    let sender = match m.from {
        Some(GraphRecipient { email_address: Some(a) }) => format_graph_email_address(a),
        _ => String::new(),
    };
    let body_preview = match &m.body_preview {
        Some(p) => string_of(&chars_of(p.as_str())),
        None => String::new(),
    };
    proof {
        reveal_strlit("");
    }
    GraphMessageContent {
        folder: string_of(&chars_of(folder)),
        provider_message_id: m.id,
        subject: match m.subject {
            Some(s) => s,
            None => string_of(&chars_of("(no subject)")),
        },
        sender,
        recipients: recipients_to_string(m.to_recipients),
        cc: recipients_to_string(m.cc_recipients),
        received_at,
        received_seconds,
        is_read: m.is_read == Some(true),
        has_attachments: m.has_attachments == Some(true),
        body_preview,
        body,
        body_type,
    }
}

/// The advice shown when a NetEase mailbox refuses third-party clients.
pub const NETEASE_UNSAFE_LOGIN_ADVICE: &'static str = "163/网易邮箱拒绝第三方客户端登录（Unsafe Login）。请确认导入时填写的是客户端授权密码，不是网页登录密码，并已在 设置 > POP3/SMTP/IMAP 中开启 IMAP/SMTP；若仍失败，需要按网易提示联系 kefu@188.com 开通第三方客户端访问。原始错误：";

/// The error text for a mailbox that could not be selected: NetEase's
/// "Unsafe Login" refusal (in any ASCII case) gets the advice before the
/// server's words.
pub open spec fn imap_select_error_text(mailbox: Seq<char>, raw: Seq<char>) -> Seq<char> {
    if contains_seq(lower(raw), "unsafe login"@) {
        "IMAP select "@ + mailbox + " failed: "@ + NETEASE_UNSAFE_LOGIN_ADVICE@ + raw
    } else {
        "IMAP select "@ + mailbox + " failed: "@ + raw
    }
}

/// The error reported when no name variant of `mailbox` can be selected,
/// from the server's last error text.
pub fn imap_select_error(mailbox: &str, raw: &str) -> (r: AppError)
    ensures
        is_internal(r, imap_select_error_text(mailbox@, raw@)),
{
    let raw_chars = chars_of(raw);
    let mut m = chars_of("IMAP select ");
    append_str(&mut m, mailbox);
    append_str(&mut m, " failed: ");
    if contains_str(&to_ascii_lower(&raw_chars), "unsafe login") {
        append_str(&mut m, NETEASE_UNSAFE_LOGIN_ADVICE);
    }
    append_chars(&mut m, &raw_chars);
    AppError::Internal(string_of(&m))
}

/// The UID an IMAP message id names: the id without surrounding whitespace,
/// read as a `u32` the way `str::parse` reads it.
pub fn imap_message_uid(message_id: &str) -> (r: AppResult<u32>)
    ensures
        match crate::html::parse_u32(trim(message_id@), 10) {
            Some(v) => r matches Ok(x) && x as nat == v,
            None => r matches Err(e) && is_invalid_input(e, "IMAP message id is not a UID"@),
        },
{
    let t = trim_str(message_id);
    match crate::html::parse_u32_exec(&t, 10) {
        Some(v) => Ok(v),
        None => Err(invalid_input("IMAP message id is not a UID")),
    }
}

/// What a Graph listing does with a listed message.
#[derive(Debug, Clone, Copy, PartialEq, Eq, Structural)]
pub enum GraphItemPlan {
    /// Cached already: only its read state is taken.
    ReadStateOnly,
    /// The listing was brief: the whole message is fetched.
    FetchFull,
    /// The listing carried the whole message.
    UseListed,
}

/// A folder with cached messages is listed briefly (ids, dates and read
/// states); one without is listed in full.
pub open spec fn graph_listing_is_brief(cached_ids: Option<Seq<Seq<char>>>) -> bool {
    cached_ids matches Some(ids) && ids.len() > 0
}

pub fn graph_listing_brief(cached_ids: Option<&[String]>) -> (r: bool)
    ensures
        r == graph_listing_is_brief(opt_views(cached_ids)),
{
    match cached_ids {
        Some(ids) => ids.len() > 0,
        None => false,
    }
}

/// The plan for a listed message: a cached one gives its read state; any
/// other is fetched in full when the listing was brief.
pub open spec fn graph_item_plan_spec(cached_ids: Option<Seq<Seq<char>>>, id: Seq<char>) -> GraphItemPlan {
    if cached_ids matches Some(ids) && ids.contains(id) {
        GraphItemPlan::ReadStateOnly
    } else if graph_listing_is_brief(cached_ids) {
        GraphItemPlan::FetchFull
    } else {
        GraphItemPlan::UseListed
    }
}

pub fn graph_item_plan(cached_ids: Option<&[String]>, id: &str) -> (r: GraphItemPlan)
    ensures
        r == graph_item_plan_spec(opt_views(cached_ids), id@),
{
    let known = match cached_ids {
        Some(ids) => strings_contain(ids, &chars_of(id)),
        None => false,
    };
    if known {
        GraphItemPlan::ReadStateOnly
    } else if graph_listing_brief(cached_ids) {
        GraphItemPlan::FetchFull
    } else {
        GraphItemPlan::UseListed
    }
}

/// The refresh size a `top` asks for, kept between 1 and the maximum.
pub fn refresh_limit_of(top: usize) -> (r: usize)
    ensures
        r == refresh_limit(top),
{
    if top < 1 {
        1
    } else if top > MAIL_REFRESH_MAX_TOP {
        MAIL_REFRESH_MAX_TOP
    } else {
        top
    }
}

/// The first letters of the listed domains, which tell the entries apart.
proof fn lemma_domain_initials()
    ensures
        forall|d: Seq<char>| #[trigger] provider_spec("graph"@).domains.contains(d) ==> d.len() > 0 && (
            d[0] == 'o' || d[0] == 'h' || d[0] == 'l' || d[0] == 'm'),
        forall|d: Seq<char>| #[trigger] provider_spec("gmail"@).domains.contains(d) ==> d.len() > 0
            && d[0] == 'g',
        forall|d: Seq<char>| #[trigger] provider_spec("qq"@).domains.contains(d) ==> d.len() > 0 && (
            d[0] == 'q' || d[0] == 'f'),
        forall|d: Seq<char>| #[trigger] provider_spec("netease_163"@).domains.contains(d) ==> d.len()
            > 0 && d[0] == '1',
        provider_spec("imap"@).domains.len() == 0,
        provider_spec("imap_custom"@).domains.len() == 0,
{
    reveal_strlit("outlook.com");
    reveal_strlit("hotmail.com");
    reveal_strlit("live.com");
    reveal_strlit("msn.com");
    reveal_strlit("gmail.com");
    reveal_strlit("googlemail.com");
    reveal_strlit("qq.com");
    reveal_strlit("foxmail.com");
    reveal_strlit("163.com");
    reveal_strlit("graph");
    reveal_strlit("gmail");
    reveal_strlit("qq");
    reveal_strlit("imap");
    reveal_strlit("netease_163");
    reveal_strlit("imap_custom");
    assert("gmail"@ != "graph"@) by {
        assert("gmail"@[1] != "graph"@[1]);
    }
    assert("qq"@ != "graph"@ && "qq"@ != "gmail"@) by {
        assert("qq"@.len() != "graph"@.len());
    }
    assert("imap"@ != "graph"@ && "imap"@ != "gmail"@ && "imap"@ != "qq"@) by {
        assert("imap"@.len() != "graph"@.len());
        assert("imap"@.len() != "qq"@.len());
    }
    assert("netease_163"@ != "graph"@ && "netease_163"@ != "gmail"@ && "netease_163"@ != "qq"@
        && "netease_163"@ != "imap"@) by {
        assert("netease_163"@.len() != "graph"@.len());
        assert("netease_163"@.len() != "qq"@.len());
        assert("netease_163"@.len() != "imap"@.len());
    }
    assert("imap_custom"@ != "graph"@ && "imap_custom"@ != "gmail"@ && "imap_custom"@ != "qq"@
        && "imap_custom"@ != "imap"@ && "imap_custom"@ != "netease_163"@) by {
        assert("imap_custom"@.len() != "graph"@.len());
        assert("imap_custom"@.len() != "qq"@.len());
        assert("imap_custom"@.len() != "imap"@.len());
        assert("imap_custom"@[0] != "netease_163"@[0]);
    }
    assert(provider_spec("imap"@).domains.len() == 0);
    assert(provider_spec("imap_custom"@).domains.len() == 0);
    assert(provider_spec("netease_163"@).domains == seq!["163.com"@]);
    assert(provider_spec("gmail"@).domains == seq!["gmail.com"@, "googlemail.com"@]);
    assert(provider_spec("qq"@).domains == seq!["qq.com"@, "foxmail.com"@]);
    assert forall|d: Seq<char>| #[trigger] provider_spec("graph"@).domains.contains(d) implies d.len()
        > 0 && (d[0] == 'o' || d[0] == 'h' || d[0] == 'l' || d[0] == 'm') by {
        let k = choose|k: int| 0 <= k < provider_spec("graph"@).domains.len() && provider_spec("graph"@).domains[k] == d;
    }
    assert forall|d: Seq<char>| #[trigger] provider_spec("gmail"@).domains.contains(d) implies d.len()
        > 0 && d[0] == 'g' by {
        let k = choose|k: int| 0 <= k < provider_spec("gmail"@).domains.len() && provider_spec("gmail"@).domains[k] == d;
    }
    assert forall|d: Seq<char>| #[trigger] provider_spec("qq"@).domains.contains(d) implies d.len()
        > 0 && (d[0] == 'q' || d[0] == 'f') by {
        let k = choose|k: int| 0 <= k < provider_spec("qq"@).domains.len() && provider_spec("qq"@).domains[k] == d;
    }
    assert forall|d: Seq<char>| #[trigger] provider_spec("netease_163"@).domains.contains(d) implies d.len()
        > 0 && d[0] == '1' by {
        let k = choose|k: int| 0 <= k < provider_spec("netease_163"@).domains.len() && provider_spec("netease_163"@).domains[k] == d;
    }
}

/// Without an explicit provider or a refresh token, an address whose
/// domain a registry entry lists gets that entry's provider.
pub proof fn law_listed_domain_decides_provider(email: Seq<char>, id: Seq<char>)
    requires
        is_registry_id(id),
        provider_spec(id).domains.contains(email_domain(email)),
    ensures
        detected_provider(email, None, false) == id,
{
    lemma_domain_initials();
    let d = email_domain(email);
    assert(provider_spec(id).domains.contains(d));
}

/// Without an explicit provider or a refresh token, an address whose
/// domain no registry entry lists is a custom IMAP account.
pub proof fn law_unlisted_domain_is_custom_imap(email: Seq<char>)
    requires
        forall|id: Seq<char>| is_registry_id(id) ==> !provider_spec(id).domains.contains(email_domain(email)),
    ensures
        detected_provider(email, None, false) == "imap_custom"@,
{
    assert(is_registry_id("graph"@));
    assert(is_registry_id("gmail"@));
    assert(is_registry_id("qq"@));
    assert(is_registry_id("imap"@));
    assert(is_registry_id("netease_163"@));
}

} // verus!
