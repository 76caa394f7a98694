//! Microsoft OAuth: the authorization URL, reading the code back from the
//! callback, explaining token errors, and choosing how an IMAP account
//! authenticates.
use crate::error::{invalid_input, invalid_input_chars, is_invalid_input, AppError, AppResult};
use crate::models::{AccountCredentials, OAuthAuthUrlInput};
use crate::providers::{
    mail_provider_definition, microsoft_oauth_scope, normalize_oauth_provider, normalize_provider,
    oauth_provider_choice, oauth_scope_for, opt_text, provider_spec,
};
use crate::text::{
    append_chars, append_str, chars_of, contains_seq, contains_str, eq_ignore_case,
    eq_ignore_case_str, find, find_char, find_char_exec, find_exec, is_whitespace, is_ws, join,
    join_exec, lemma_find, lemma_find_char, lower, opt_chars, or_empty, split, split_exec,
    starts_with, starts_with_str, string_of, subrange, to_ascii_lower, trim, trim_str,
};
use vstd::prelude::*;
use vstd::utf8::encode_utf8;

verus! {

broadcast use vstd::string::group_string_axioms;

// ---------------------------------------------------------------------------
// Percent encoding
// ---------------------------------------------------------------------------

/// Bytes that `urlencoding::encode` leaves as they are.
pub open spec fn url_safe_byte(b: u8) -> bool {
    (48 <= b && b <= 57) || (65 <= b && b <= 90) || (97 <= b && b <= 122) || b == 45 || b == 46
        || b == 95 || b == 126
}

/// An upper-case hexadecimal digit.
pub open spec fn upper_hex(d: nat) -> char {
    if d < 10 {
        ((48 + d) as u8) as char
    } else {
        ((55 + d) as u8) as char
    }
}

/// Percent-encoding of bytes: safe bytes as themselves, every other byte
/// as `%` and two upper-case hexadecimal digits.
pub open spec fn percent_encoded(bytes: Seq<u8>) -> Seq<char>
    decreases bytes.len(),
{
    if bytes.len() == 0 {
        Seq::empty()
    } else {
        let b = bytes.last();
        percent_encoded(bytes.drop_last()) + if url_safe_byte(b) {
            seq![(b as u8) as char]
        } else {
            seq!['%', upper_hex((b / 16) as nat), upper_hex((b % 16) as nat)]
        }
    }
}

/// The URL encoding of a text (of its UTF-8 bytes).
pub open spec fn url_encoded(text: Seq<char>) -> Seq<char> {
    percent_encoded(encode_utf8(text))
}

/// The text `urlencoding::decode` reads from a percent-encoded text, if its
/// bytes form UTF-8.
pub uninterp spec fn url_decoded(text: Seq<char>) -> Option<Seq<char>>;

/// `urlencoding::encode`: every byte but ASCII letters, digits and `-._~`
/// percent-encoded with upper-case hexadecimal digits.
#[verifier::external_body]
pub(crate) fn url_encode(text: &str) -> (r: String)
    ensures
        r@ == url_encoded(text@),
{
    urlencoding::encode(text).into_owned()
}

/// `urlencoding::decode`, with the error rendered as text.
#[verifier::external_body]
fn url_decode(text: &str) -> (r: Result<String, String>)
    ensures
        match url_decoded(text@) {
            Some(d) => r matches Ok(x) && x@ == d,
            None => r is Err,
        },
{
    match urlencoding::decode(text) {
        Ok(decoded) => Ok(decoded.into_owned()),
        Err(err) => Err(err.to_string()),
    }
}

// ---------------------------------------------------------------------------
// Authorization URL
// ---------------------------------------------------------------------------

/// The authorization endpoint of the Microsoft identity platform.
pub const AUTHORIZE_ENDPOINT: &'static str = "https://login.microsoftonline.com/common/oauth2/v2.0/authorize";

/// The encoded scope, with `+` for spaces.
pub open spec fn scope_parameter(provider: Seq<char>) -> Seq<char> {
    join(split(url_encoded(oauth_scope_for(provider)), "%20"@), "+"@)
}

/// The `login_hint` parameter, present when a hint is not blank.
pub open spec fn login_hint_parameter(hint: Option<Seq<char>>) -> Seq<char> {
    match hint {
        Some(h) => if trim(h).len() > 0 {
            "&login_hint="@ + url_encoded(trim(h))
        } else {
            Seq::empty()
        },
        None => Seq::empty(),
    }
}

/// The URL that starts the Microsoft authorization, or why it cannot be
/// built: the provider must allow Microsoft OAuth, and the client id and
/// redirect URI must not be blank.
pub open spec fn graph_auth_url(input: OAuthAuthUrlInput) -> Result<Seq<char>, Seq<char>> {
    match oauth_provider_choice(or_empty(opt_chars(input.provider))) {
        Err(m) => Err(m),
        Ok(provider) => {
            let client_id = trim(input.client_id@);
            let redirect_uri = trim(input.redirect_uri@);
            if client_id.len() == 0 {
                Err("Microsoft client id is required"@)
            } else if redirect_uri.len() == 0 {
                Err("OAuth redirect URI is required"@)
            } else {
                Ok(
                    AUTHORIZE_ENDPOINT@ + "?client_id="@ + url_encoded(client_id)
                        + "&response_type=code&redirect_uri="@ + url_encoded(redirect_uri)
                        + "&response_mode=query&scope="@ + scope_parameter(provider)
                        + "&state=12345"@ + login_hint_parameter(opt_chars(input.login_hint)),
                )
            }
        },
    }
}

fn as_opt_str(v: &Option<String>) -> (r: Option<&str>)
    ensures
        opt_text(r) == or_empty(opt_chars(*v)),
{
    match v {
        Some(s) => Some(s.as_str()),
        None => None,
    }
}

pub fn build_graph_auth_url(input: &OAuthAuthUrlInput) -> (r: AppResult<String>)
    ensures
        match graph_auth_url(*input) {
            Ok(u) => r matches Ok(x) && x@ == u,
            Err(m) => r matches Err(e) && is_invalid_input(e, m),
        },
{
    let provider = match normalize_oauth_provider(as_opt_str(&input.provider)) {
        Ok(p) => p,
        Err(e) => {
            return Err(e);
        },
    };
    let client_id = trim_str(input.client_id.as_str());
    let redirect_uri = trim_str(input.redirect_uri.as_str());
    if client_id.len() == 0 {
        return Err(invalid_input("Microsoft client id is required"));
    }
    if redirect_uri.len() == 0 {
        return Err(invalid_input("OAuth redirect URI is required"));
    }
    let scope_text = microsoft_oauth_scope(Some(provider));
    proof {
        crate::text::lemma_trim_idempotent(provider@);
        assert(opt_text(Some(provider)) == provider@);
    }
    let encoded_scope = url_encode(scope_text);
    proof {
        reveal_strlit("%20");
    }
    let pieces = split_exec(&chars_of(encoded_scope.as_str()), &chars_of("%20"));
    let scope = join_exec(&pieces, &chars_of("+"));
    let mut url = chars_of(AUTHORIZE_ENDPOINT);
    append_str(&mut url, "?client_id=");
    append_str(&mut url, url_encode(string_of(&client_id).as_str()).as_str());
    append_str(&mut url, "&response_type=code&redirect_uri=");
    append_str(&mut url, url_encode(string_of(&redirect_uri).as_str()).as_str());
    append_str(&mut url, "&response_mode=query&scope=");
    append_chars(&mut url, &scope);
    append_str(&mut url, "&state=12345");
    let ghost base = url@;
    match &input.login_hint {
        Some(hint) => {
            let h = trim_str(hint.as_str());
            if h.len() > 0 {
                append_str(&mut url, "&login_hint=");
                append_str(&mut url, url_encode(string_of(&h).as_str()).as_str());
            }
        },
        None => {},
    }
    assert(url@ =~= base + login_hint_parameter(opt_chars(input.login_hint)));
    Ok(string_of(&url))
}

// ---------------------------------------------------------------------------
// Authorization codes
// ---------------------------------------------------------------------------

/// `s` without any whitespace (its words run together).
pub open spec fn without_whitespace(s: Seq<char>) -> Seq<char>
    decreases s.len(),
{
    if s.len() == 0 {
        Seq::empty()
    } else if is_ws(s.last()) {
        without_whitespace(s.drop_last())
    } else {
        without_whitespace(s.drop_last()).push(s.last())
    }
}

/// What the user pasted, read as an authorization code: a bare code as it
/// is, or the `code` parameter of a callback URL, percent-decoded.
/// `Err(Some(m))` is a refusal of the library's own; `Err(None)` a code
/// that does not decode.
pub open spec fn pasted_code(code_or_url: Seq<char>) -> Result<Seq<char>, Option<Seq<char>>> {
    let value = without_whitespace(code_or_url);
    if value.len() == 0 {
        Err(Some("OAuth code or callback URL is required"@))
    } else if !starts_with(value, "http://"@) && !starts_with(value, "https://"@) {
        Ok(value)
    } else {
        match find(value, "code="@) {
            None => Err(Some("callback URL does not contain code"@)),
            Some(m) => {
                let rest = value.skip(m + 5);
                let code = match find_char(rest, '&') {
                    Some(k) => rest.take(k),
                    None => rest,
                };
                match url_decoded(code) {
                    Some(d) => Ok(d),
                    None => Err(None),
                }
            },
        }
    }
}

pub fn extract_code(code_or_url: &str) -> (r: AppResult<String>)
    ensures
        match pasted_code(code_or_url@) {
            Ok(c) => r matches Ok(x) && x@ == c,
            Err(Some(m)) => r matches Err(e) && is_invalid_input(e, m),
            Err(None) => r matches Err(AppError::InvalidInput(m)) && starts_with(
                m@,
                "invalid OAuth code encoding: "@,
            ),
        },
{
    let v = chars_of(code_or_url);
    let mut value: Vec<char> = Vec::new();
    let mut i: usize = 0;
    while i < v.len()
        invariant
            0 <= i <= v.len(),
            value@ == without_whitespace(v@.take(i as int)),
        decreases v.len() - i,
    {
        let ghost t = v@.take(i + 1);
        assert(t.drop_last() =~= v@.take(i as int));
        if !is_whitespace(v[i]) {
            value.push(v[i]);
        }
        i = i + 1;
    }
    assert(v@.take(v.len() as int) =~= v@);
    if value.len() == 0 {
        return Err(invalid_input("OAuth code or callback URL is required"));
    }
    if !starts_with_str(&value, "http://") && !starts_with_str(&value, "https://") {
        return Ok(string_of(&value));
    }
    proof {
        lemma_find(value@, "code="@);
    }
    let marker = match find_exec(&value, &chars_of("code=")) {
        Some(m) => m,
        None => {
            return Err(invalid_input("callback URL does not contain code"));
        },
    };
    proof {
        reveal_strlit("code=");
    }
    let rest = subrange(&value, marker + 5, value.len());
    assert(rest@ =~= value@.skip(marker + 5));
    proof {
        lemma_find_char(rest@, '&');
    }
    let code = match find_char_exec(&rest, '&') {
        Some(k) => subrange(&rest, 0, k),
        None => subrange(&rest, 0, rest.len()),
    };
    proof {
        match find_char(rest@, '&') {
            Some(k) => assert(code@ =~= rest@.take(k)),
            None => assert(code@ =~= rest@),
        }
    }
    match url_decode(string_of(&code).as_str()) {
        Ok(d) => Ok(d),
        Err(m) => {
            let mut msg = chars_of("invalid OAuth code encoding: ");
            append_str(&mut msg, m.as_str());
            proof {
                reveal_strlit("invalid OAuth code encoding: ");
                assert(msg@.take(29) =~= "invalid OAuth code encoding: "@);
            }
            Err(AppError::InvalidInput(string_of(&msg)))
        },
    }
}

// ---------------------------------------------------------------------------
// Token errors
// ---------------------------------------------------------------------------

/// The string value of a top-level field of a JSON object text, if the
/// text parses and the field holds a string.
pub uninterp spec fn json_field_text(body: Seq<char>, key: Seq<char>) -> Option<Seq<char>>;

/// `serde_json::from_str::<Value>(body)` and the string at `key`.
#[verifier::external_body]
fn json_string_field(body: &str, key: &str) -> (r: Option<String>)
    ensures
        opt_chars(r) == json_field_text(body@, key@),
{
    serde_json::from_str::<serde_json::Value>(body).ok().and_then(
        |value| value.get(key).and_then(|field| field.as_str()).map(|text| text.to_string()),
    )
}

/// Advice for an authorization code that expired or was already used.
pub const EXPIRED_CODE_ADVICE: &'static str = "OAuth 授权码已过期或已被使用，请重新点击“打开”完成授权，然后粘贴新的回调 URL。";

/// Advice for an authorization code that the provider refused.
pub const INVALID_CODE_ADVICE: &'static str = "OAuth 授权码无效，请重新打开授权页面并复制新的完整回调 URL。";

/// A failed token request explained: whether it is the user's to fix
/// (`true`) and the message.  An expired or reused code and an invalid grant
/// get their own advice; anything else reports the HTTP status and the
/// provider's description (the whole body when it has none).
pub open spec fn token_error(status: Seq<char>, body: Seq<char>) -> (bool, Seq<char>) {
    let error = or_empty(json_field_text(body, "error"@));
    let description = match json_field_text(body, "error_description"@) {
        Some(d) => d,
        None => body,
    };
    let l = lower(error + " "@ + description);
    if contains_seq(l, "aadsts70000"@) || contains_seq(l, "code has expired"@) || contains_seq(
        l,
        "provided value for the 'code' parameter is not valid"@,
    ) {
        (true, EXPIRED_CODE_ADVICE@)
    } else if contains_seq(l, "invalid_grant"@) {
        (true, INVALID_CODE_ADVICE@)
    } else {
        (false, "OAuth token request failed: HTTP "@ + status + " "@ + description)
    }
}

pub fn oauth_token_error(status: &str, body: &str) -> (r: AppError)
    ensures
        token_error(status@, body@).0 ==> is_invalid_input(r, token_error(status@, body@).1),
        !token_error(status@, body@).0 ==> crate::error::is_internal(
            r,
            token_error(status@, body@).1,
        ),
{
    let error = match json_string_field(body, "error") {
        Some(e) => chars_of(e.as_str()),
        None => Vec::new(),
    };
    assert(error@ == or_empty(json_field_text(body@, "error"@)));
    let description = match json_string_field(body, "error_description") {
        Some(d) => chars_of(d.as_str()),
        None => chars_of(body),
    };
    assert(description@ == match json_field_text(body@, "error_description"@) {
        Some(d) => d,
        None => body@,
    });
    let mut joined = Vec::new();
    append_chars(&mut joined, &error);
    joined.push(' ');
    append_chars(&mut joined, &description);
    proof {
        reveal_strlit(" ");
    }
    assert(joined@ =~= error@ + " "@ + description@);
    let l = to_ascii_lower(&joined);
    if contains_str(&l, "aadsts70000") || contains_str(&l, "code has expired") || contains_str(
        &l,
        "provided value for the 'code' parameter is not valid",
    ) {
        return invalid_input(EXPIRED_CODE_ADVICE);
    }
    if contains_str(&l, "invalid_grant") {
        return invalid_input(INVALID_CODE_ADVICE);
    }
    let mut m = chars_of("OAuth token request failed: HTTP ");
    append_str(&mut m, status);
    m.push(' ');
    append_chars(&mut m, &description);
    assert(m@ =~= "OAuth token request failed: HTTP "@ + status@ + " "@ + description@);
    AppError::Internal(string_of(&m))
}

/// The tokens a successful token request returns.
#[derive(Debug, Clone)]
pub struct OAuthTokenResponse {
    pub access_token: String,
    pub refresh_token: String,
    pub expires_in: i64,
    pub scope: String,
}

// ---------------------------------------------------------------------------
// IMAP authentication
// ---------------------------------------------------------------------------

/// The SASL XOAUTH2 initial response for a user and an access token.
pub open spec fn xoauth2_text(user: Seq<char>, access_token: Seq<char>) -> Seq<char> {
    "user="@ + user + seq!['\x01'] + "auth=Bearer "@ + access_token + seq!['\x01', '\x01']
}

/// The credentials of an XOAUTH2 login.
#[derive(Debug, Clone)]
pub struct XOAuth2Authenticator {
    pub user: String,
    pub access_token: String,
}

impl XOAuth2Authenticator {
    /// The response to the server's challenge (which it does not read).
    pub fn process(&self, challenge: &[u8]) -> (r: String)
        ensures
            r@ == xoauth2_text(self.user@, self.access_token@),
    {
        let mut out = chars_of("user=");
        append_str(&mut out, self.user.as_str());
        out.push('\x01');
        append_str(&mut out, "auth=Bearer ");
        append_str(&mut out, self.access_token.as_str());
        out.push('\x01');
        out.push('\x01');
        assert(out@ =~= xoauth2_text(self.user@, self.access_token@));
        string_of(&out)
    }
}

/// How an IMAP account logs in.
#[derive(Debug, Clone)]
pub enum ImapAuthPlan {
    /// With a stored app password or authorization code.
    Password(String),
    /// With an access token obtained from the stored refresh token.
    RefreshOAuth,
}

/// The login an IMAP account uses: the `imap` provider always uses OAuth;
/// providers whose credential is an IMAP secret use the stored secret;
/// any other account uses OAuth when it has a client id and a refresh token.
/// `Err` carries the refusal.
pub open spec fn imap_auth(account: AccountCredentials) -> Result<Option<Seq<char>>, Seq<char>> {
    let has_oauth = trim(account.client_id@).len() > 0 && trim(account.refresh_token@).len() > 0;
    if eq_ignore_case(account.provider@, "imap"@) {
        if has_oauth {
            Ok(None)
        } else {
            Err("IMAP OAuth requires client ID and refresh token"@)
        }
    } else if normalize_provider(account.provider@) is Some && starts_with(
        provider_spec(normalize_provider(account.provider@)->0).credential_kind,
        "imap"@,
    ) {
        let id = normalize_provider(account.provider@)->0;
        if trim(account.refresh_token@).len() > 0 {
            Ok(Some(trim(account.refresh_token@)))
        } else {
            Err(provider_spec(id).id + " requires an app password or auth code"@)
        }
    } else if has_oauth {
        Ok(None)
    } else {
        Err("IMAP credentials are missing"@)
    }
}

pub fn imap_auth_plan(account: &AccountCredentials) -> (r: AppResult<ImapAuthPlan>)
    ensures
        match imap_auth(*account) {
            Ok(Some(secret)) => r matches Ok(ImapAuthPlan::Password(p)) && p@ == secret,
            Ok(None) => r matches Ok(ImapAuthPlan::RefreshOAuth),
            Err(m) => r matches Err(e) && is_invalid_input(e, m),
        },
{
    let client_id = trim_str(account.client_id.as_str());
    let refresh = trim_str(account.refresh_token.as_str());
    let has_oauth = client_id.len() > 0 && refresh.len() > 0;
    if eq_ignore_case_str(&chars_of(account.provider.as_str()), "imap") {
        if has_oauth {
            return Ok(ImapAuthPlan::RefreshOAuth);
        }
        return Err(invalid_input("IMAP OAuth requires client ID and refresh token"));
    }
    match mail_provider_definition(account.provider.as_str()) {
        Some(def) => {
            if starts_with_str(&chars_of(def.credential_kind), "imap") {
                if refresh.len() > 0 {
                    return Ok(ImapAuthPlan::Password(string_of(&refresh)));
                }
                let mut m = chars_of(def.id);
                append_str(&mut m, " requires an app password or auth code");
                return Err(invalid_input_chars(&m));
            }
        },
        None => {},
    }
    if has_oauth {
        return Ok(ImapAuthPlan::RefreshOAuth);
    }
    Err(invalid_input("IMAP credentials are missing"))
}

/// A link the desktop may hand to the default browser: an `http` or
/// `https` URL, without surrounding whitespace.
pub fn external_url(url: &str) -> (r: AppResult<String>)
    ensures
        ({
            let t = trim(url@);
            if starts_with(t, "https://"@) || starts_with(t, "http://"@) {
                r matches Ok(u) && u@ == t
            } else {
                r matches Err(e) && is_invalid_input(e, "only http or https URLs can be opened"@)
            }
        }),
{
    let t = trim_str(url);
    if !(starts_with_str(&t, "https://") || starts_with_str(&t, "http://")) {
        return Err(invalid_input("only http or https URLs can be opened"));
    }
    Ok(string_of(&t))
}

} // verus!
