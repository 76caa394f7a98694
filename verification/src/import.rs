//! Parsing of the account import text: one account per line, fields
//! separated by `----`, `|||`, tabs or commas, with an optional provider.
use crate::error::AppResult;
use crate::providers::{
    detect_mail_provider, detected_provider, normalize_mail_provider_id, normalize_provider,
    provider_spec, MailProviderDefinition,
};
use crate::text::{
    chars_of, contains_seq, find_char, find_char_exec, lower, prepend_first, split, split_exec,
    starts_with, starts_with_exec, starts_with_str, string_of, subrange, to_ascii_lower, trim,
    trim_chars, trim_str, views,
};
use vstd::prelude::*;

verus! {

broadcast use vstd::string::group_string_axioms;

/// One account read from the import text.
#[derive(Debug, Clone)]
pub struct ImportedAccount {
    pub email: String,
    pub password: String,
    pub client_id: String,
    pub refresh_token: String,
    pub remark: String,
    pub provider: Option<String>,
}

/// The fields of an imported account as character sequences.
pub struct ImportedAccountView {
    pub email: Seq<char>,
    pub password: Seq<char>,
    pub client_id: Seq<char>,
    pub refresh_token: Seq<char>,
    pub remark: Seq<char>,
    pub provider: Option<Seq<char>>,
}

impl View for ImportedAccount {
    type V = ImportedAccountView;

    open spec fn view(&self) -> ImportedAccountView {
        ImportedAccountView {
            email: self.email@,
            password: self.password@,
            client_id: self.client_id@,
            refresh_token: self.refresh_token@,
            remark: self.remark@,
            provider: match self.provider {
                Some(p) => Some(p@),
                None => None,
            },
        }
    }
}

/// Unicode lower-casing as `str::to_lowercase` performs it.
pub uninterp spec fn unicode_lowercase(s: Seq<char>) -> Seq<char>;

/// All characters are ASCII.
pub open spec fn all_ascii(s: Seq<char>) -> bool {
    forall|i: int| 0 <= i < s.len() ==> (#[trigger] s[i] as u32) < 128
}

/// `str::to_lowercase` as far as it is stated here: ASCII lower-casing on
/// ASCII text, the named Unicode mapping on any other.
pub open spec fn lowercase(s: Seq<char>) -> Seq<char> {
    if all_ascii(s) {
        lower(s)
    } else {
        unicode_lowercase(s)
    }
}

/// Lower-cases text with std `str::to_lowercase`.  Its result is named
/// `unicode_lowercase`; on ASCII text it is the ASCII lower-casing, as the
/// std documentation of the Unicode lowercase mapping gives, and an `@`,
/// which has no lowercase mapping, is kept.  What it does to other
/// non-ASCII characters is left unstated.
#[verifier::external_body]
pub(crate) fn to_lowercase_string(s: &str) -> (r: String)
    ensures
        r@ == unicode_lowercase(s@),
        all_ascii(s@) ==> r@ == lower(s@),
        s@.contains('@') ==> r@.contains('@'),
{
    s.to_lowercase()
}

/// `str::lines`: the text split at `\n`, a `\r` before a `\n` removed, and
/// no empty line after a final line break.
pub open spec fn lines_of(s: Seq<char>) -> Seq<Seq<char>> {
    let pieces = split(s, seq!['\n']);
    let body = pieces.drop_last();
    let stripped = Seq::new(
        body.len(),
        |i: int|
            if body[i].len() > 0 && body[i].last() == '\r' {
                body[i].drop_last()
            } else {
                body[i]
            },
    );
    if pieces.len() > 0 && pieces.last().len() == 0 {
        stripped
    } else {
        stripped.push(pieces.last())
    }
}

/// The first delimiter of the line among `----`, `|||`, tab and comma
/// splits it; a line with none of them is one field.
pub open spec fn split_line_spec(line: Seq<char>) -> Seq<Seq<char>> {
    if contains_seq(line, "----"@) {
        split(line, "----"@)
    } else if contains_seq(line, "|||"@) {
        split(line, "|||"@)
    } else if contains_seq(line, seq!['\t']) {
        split(line, seq!['\t'])
    } else if contains_seq(line, seq![',']) {
        split(line, seq![','])
    } else {
        seq![line]
    }
}

/// A `provider=` or `provider:` field.
pub open spec fn is_assignment(v: Seq<char>) -> bool {
    let l = lower(trim(v));
    starts_with(l, "provider="@) || starts_with(l, "provider:"@)
}

/// What follows the first `=` of a field, or else its first `:`.
pub open spec fn assignment_value(v: Seq<char>) -> Option<Seq<char>> {
    match find_char(v, '=') {
        Some(i) => Some(v.skip(i + 1)),
        None => match find_char(v, ':') {
            Some(i) => Some(v.skip(i + 1)),
            None => None,
        },
    }
}

/// The provider named by the first assignment field whose value names one.
pub open spec fn explicit_provider(parts: Seq<Seq<char>>) -> Option<Seq<char>>
    decreases parts.len(),
{
    if parts.len() == 0 {
        None
    } else {
        let p = parts[0];
        let here = if is_assignment(p) {
            match assignment_value(p) {
                Some(v) => normalize_provider(v),
                None => None,
            }
        } else {
            None
        };
        match here {
            Some(id) => Some(id),
            None => explicit_provider(parts.drop_first()),
        }
    }
}

/// The fields that are not provider assignments, in order.
pub open spec fn positional(parts: Seq<Seq<char>>) -> Seq<Seq<char>>
    decreases parts.len(),
{
    if parts.len() == 0 {
        Seq::empty()
    } else if is_assignment(parts.last()) {
        positional(parts.drop_last())
    } else {
        positional(parts.drop_last()).push(parts.last())
    }
}

/// Index of the first field holding an `@`.
pub open spec fn first_email_index(parts: Seq<Seq<char>>) -> Option<int>
    decreases parts.len(),
{
    if parts.len() == 0 {
        None
    } else {
        match first_email_index(parts.drop_last()) {
            Some(i) => Some(i),
            None => if parts.last().contains('@') {
                Some(parts.len() - 1)
            } else {
                None
            },
        }
    }
}

/// Field `i`, or empty when the line has fewer fields.
pub open spec fn field_or_empty(parts: Seq<Seq<char>>, i: int) -> Seq<char> {
    if 0 <= i < parts.len() {
        parts[i]
    } else {
        Seq::empty()
    }
}

/// The trimmed fields of a line.
pub open spec fn trimmed_fields(line: Seq<char>) -> Seq<Seq<char>> {
    let raw = split_line_spec(line);
    Seq::new(raw.len(), |i: int| trim(raw[i]))
}

/// The account one line describes, if any: blank lines and `#` comments
/// describe none, and neither does a line without an address.  The
/// provider is the explicit `provider=` one, else a leading provider
/// token directly before an address field.
pub open spec fn parse_line(line: Seq<char>) -> Option<ImportedAccountView> {
    let t = trim(line);
    if t.len() == 0 || t[0] == '#' {
        None
    } else {
        let parts = trimmed_fields(t);
        let explicit = explicit_provider(parts);
        let pos0 = positional(parts);
        let token_first = explicit is None && pos0.len() >= 2 && normalize_provider(pos0[0]) is Some
            && pos0[1].contains('@');
        let provider = if token_first {
            normalize_provider(pos0[0])
        } else {
            explicit
        };
        let pos = if token_first {
            pos0.drop_first()
        } else {
            pos0
        };
        match first_email_index(pos) {
            None => None,
            Some(e) => Some(
                ImportedAccountView {
                    email: lowercase(trim(pos[e])),
                    password: field_or_empty(pos, e + 1),
                    client_id: field_or_empty(pos, e + 2),
                    refresh_token: field_or_empty(pos, e + 3),
                    remark: field_or_empty(pos, e + 4),
                    provider,
                },
            ),
        }
    }
}

/// The accounts of a sequence of lines, in order.
pub open spec fn parse_lines(lines: Seq<Seq<char>>) -> Seq<ImportedAccountView>
    decreases lines.len(),
{
    if lines.len() == 0 {
        Seq::empty()
    } else {
        match parse_line(lines.last()) {
            Some(a) => parse_lines(lines.drop_last()).push(a),
            None => parse_lines(lines.drop_last()),
        }
    }
}

/// Views of imported accounts.
pub open spec fn account_views(v: Seq<ImportedAccount>) -> Seq<ImportedAccountView> {
    Seq::new(v.len(), |i: int| v[i]@)
}

fn split_line(line: &Vec<char>) -> (r: Vec<Vec<char>>)
    ensures
        views(r@) == split_line_spec(line@),
{
    proof {
        reveal_strlit("----");
        reveal_strlit("|||");
    }
    let d1 = chars_of("----");
    let d2 = chars_of("|||");
    if crate::text::contains_exec(line, &d1) {
        return split_exec(line, &d1);
    }
    if crate::text::contains_exec(line, &d2) {
        return split_exec(line, &d2);
    }
    let mut tab: Vec<char> = Vec::new();
    tab.push('\t');
    assert(tab@ =~= seq!['\t']);
    if crate::text::contains_exec(line, &tab) {
        return split_exec(line, &tab);
    }
    let mut comma: Vec<char> = Vec::new();
    comma.push(',');
    assert(comma@ =~= seq![',']);
    if crate::text::contains_exec(line, &comma) {
        return split_exec(line, &comma);
    }
    let mut r: Vec<Vec<char>> = Vec::new();
    let whole = subrange(line, 0, line.len());
    assert(whole@ =~= line@);
    r.push(whole);
    assert(views(r@) =~= seq![line@]);
    r
}

fn is_provider_assignment(value: &Vec<char>) -> (r: bool)
    ensures
        r == is_assignment(value@),
{
    let l = to_ascii_lower(&trim_chars(value));
    starts_with_str(&l, "provider=") || starts_with_str(&l, "provider:")
}

fn is_provider_token(value: &Vec<char>) -> (r: bool)
    ensures
        r == (normalize_provider(value@) is Some),
{
    let s = string_of(value);
    normalize_mail_provider_id(s.as_str()).is_some()
}

fn provider_of(value: &Vec<char>) -> (r: Option<String>)
    ensures
        match normalize_provider(value@) {
            Some(id) => r matches Some(x) && x@ == id,
            None => r is None,
        },
{
    let s = string_of(value);
    match normalize_mail_provider_id(s.as_str()) {
        Some(id) => Some(string_of(&chars_of(id))),
        None => None,
    }
}

fn find_explicit_provider(parts: &Vec<Vec<char>>) -> (r: Option<String>)
    ensures
        match explicit_provider(views(parts@)) {
            Some(id) => r matches Some(x) && x@ == id,
            None => r is None,
        },
{
    let mut i: usize = 0;
    assert(views(parts@).skip(0) =~= views(parts@));
    while i < parts.len()
        invariant
            0 <= i <= parts.len(),
            explicit_provider(views(parts@)) == explicit_provider(views(parts@).skip(i as int)),
        decreases parts.len() - i,
    {
        let ghost rest = views(parts@).skip(i as int);
        assert(rest[0] == parts@[i as int]@);
        assert(rest.drop_first() =~= views(parts@).skip(i + 1));
        let p = &parts[i];
        if is_provider_assignment(p) {
            let value = match find_char_exec(p, '=') {
                Some(k) => {
                    proof {
                        crate::text::lemma_find_char(p@, '=');
                    }
                    assert(k < p.len());
                    Some(subrange(p, k + 1, p.len()))
                },
                None => match find_char_exec(p, ':') {
                    Some(k) => {
                        proof {
                            crate::text::lemma_find_char(p@, ':');
                        }
                        assert(k < p.len());
                        Some(subrange(p, k + 1, p.len()))
                    },
                    None => None,
                },
            };
            proof {
                if value is Some {
                    let v = value->0;
                    assert(assignment_value(p@) == Some(v@)) by {
                        if let Some(k) = find_char(p@, '=') {
                            assert(v@ =~= p@.skip(k + 1));
                        } else if let Some(k) = find_char(p@, ':') {
                            assert(v@ =~= p@.skip(k + 1));
                        }
                    }
                } else {
                    assert(assignment_value(p@) is None);
                }
            }
            if let Some(v) = &value {
                let found = provider_of(v);
                if found.is_some() {
                    return found;
                }
            }
        }
        i = i + 1;
    }
    None
}

fn parse_line_exec(line: &Vec<char>) -> (r: Option<ImportedAccount>)
    ensures
        match parse_line(line@) {
            Some(a) => r matches Some(x) && x@ == a,
            None => r is None,
        },
        r matches Some(x) ==> x.email@.contains('@'),
{
    let trimmed = trim_chars(line);
    if trimmed.len() == 0 || trimmed[0] == '#' {
        return None;
    }
    let raw = split_line(&trimmed);
    let mut parts: Vec<Vec<char>> = Vec::new();
    let mut i: usize = 0;
    while i < raw.len()
        invariant
            0 <= i <= raw.len(),
            views(parts@) == Seq::new(i as nat, |k: int| trim(views(raw@)[k])),
        decreases raw.len() - i,
    {
        let t = trim_chars(&raw[i]);
        let ghost old_p = views(parts@);
        parts.push(t);
        assert(views(parts@) =~= old_p.push(t@));
        assert(t@ == trim(views(raw@)[i as int]));
        assert(views(parts@) =~= Seq::new((i + 1) as nat, |k: int| trim(views(raw@)[k])));
        i = i + 1;
    }
    assert(views(parts@) =~= trimmed_fields(trimmed@));
    let explicit = find_explicit_provider(&parts);
    // positional fields
    let mut pos: Vec<Vec<char>> = Vec::new();
    let mut j: usize = 0;
    while j < parts.len()
        invariant
            0 <= j <= parts.len(),
            views(pos@) == positional(views(parts@).take(j as int)),
        decreases parts.len() - j,
    {
        let ghost t = views(parts@).take(j + 1);
        assert(t.drop_last() =~= views(parts@).take(j as int));
        assert(t.last() == parts@[j as int]@);
        if !is_provider_assignment(&parts[j]) {
            let ghost old_pos = views(pos@);
            let f = subrange(&parts[j], 0, parts[j].len());
            assert(f@ =~= parts@[j as int]@);
            pos.push(f);
            assert(views(pos@) =~= old_pos.push(f@));
        }
        j = j + 1;
    }
    assert(views(parts@).take(parts.len() as int) =~= views(parts@));
    let ghost pos0 = views(pos@);
    let mut provider = explicit;
    let mut offset: usize = 0;
    if provider.is_none() && pos.len() >= 2 && is_provider_token(&pos[0]) && crate::text::contains_char(
        &pos[1],
        '@',
    ) {
        provider = provider_of(&pos[0]);
        offset = 1;
    }
    let ghost posv = if offset == 1 {
        pos0.drop_first()
    } else {
        pos0
    };
    // first field holding '@'
    let mut e: usize = offset;
    while e < pos.len() && !crate::text::contains_char(&pos[e], '@')
        invariant
            offset <= e <= pos.len(),
            offset <= 1,
            posv == views(pos@).skip(offset as int),
            forall|k: int| offset <= k < e ==> !(#[trigger] pos@[k]@).contains('@'),
        decreases pos.len() - e,
    {
        e = e + 1;
    }
    proof {
        lemma_first_email_index(posv, e - offset);
    }
    if e >= pos.len() {
        return None;
    }
    let email_field = string_of(&trim_chars(&pos[e]));
    proof {
        lemma_trim_keeps_non_ws(pos@[e as int]@, '@');
    }
    let email = to_lowercase_string(email_field.as_str());
    let password = field_string(&pos, e, 1);
    let client_id = field_string(&pos, e, 2);
    let refresh_token = field_string(&pos, e, 3);
    let remark = field_string(&pos, e, 4);
    let r = ImportedAccount { email, password, client_id, refresh_token, remark, provider };
    proof {
        let ei = (e - offset) as int;
        assert(posv[ei] == pos@[e as int]@);
        assert(field_or_empty(posv, ei + 1) == field_or_empty(views(pos@), e + 1));
        assert(field_or_empty(posv, ei + 2) == field_or_empty(views(pos@), e + 2));
        assert(field_or_empty(posv, ei + 3) == field_or_empty(views(pos@), e + 3));
        assert(field_or_empty(posv, ei + 4) == field_or_empty(views(pos@), e + 4));
    }
    Some(r)
}

/// Field `base + d` as a string, empty when absent.
fn field_string(parts: &Vec<Vec<char>>, base: usize, d: usize) -> (r: String)
    requires
        base < parts.len(),
    ensures
        r@ == field_or_empty(views(parts@), base + d),
{
    if d < parts.len() - base {
        string_of(&parts[base + d])
    } else {
        string_of(&Vec::new())
    }
}

/// The first field with an `@` among fields known to lack one before `k`.
pub proof fn lemma_first_email_index(parts: Seq<Seq<char>>, k: int)
    requires
        0 <= k <= parts.len(),
        forall|j: int| 0 <= j < k ==> !(#[trigger] parts[j]).contains('@'),
        k < parts.len() ==> parts[k].contains('@'),
    ensures
        k < parts.len() ==> first_email_index(parts) == Some(k),
        k == parts.len() ==> first_email_index(parts) is None,
    decreases parts.len(),
{
    if parts.len() > 0 {
        let d = parts.drop_last();
        if k < parts.len() - 1 {
            assert forall|j: int| 0 <= j < k implies !(#[trigger] d[j]).contains('@') by {
                assert(d[j] == parts[j]);
            }
            assert(d[k] == parts[k]);
            lemma_first_email_index(d, k);
        } else {
            assert forall|j: int| 0 <= j < parts.len() - 1 implies !(#[trigger] d[j]).contains(
                '@',
            ) by {
                assert(d[j] == parts[j]);
            }
            lemma_first_email_index(d, parts.len() - 1);
        }
    }
}

/// The lines of a text.
fn lines_exec(raw: &str) -> (r: Vec<Vec<char>>)
    ensures
        views(r@) == lines_of(raw@),
{
    let v = chars_of(raw);
    let mut nl: Vec<char> = Vec::new();
    nl.push('\n');
    assert(nl@ =~= seq!['\n']);
    let pieces = split_exec(&v, &nl);
    proof {
        crate::text::lemma_split_nonempty(v@, nl@);
    }
    let ghost pv = views(pieces@);
    let ghost body = pv.drop_last();
    let mut out: Vec<Vec<char>> = Vec::new();
    let mut i: usize = 0;
    let n = pieces.len() - 1;
    while i < n
        invariant
            n == pieces.len() - 1,
            pv == views(pieces@),
            body == pv.drop_last(),
            0 <= i <= n,
            views(out@) == Seq::new(
                i as nat,
                |k: int|
                    if body[k].len() > 0 && body[k].last() == '\r' {
                        body[k].drop_last()
                    } else {
                        body[k]
                    },
            ),
        decreases n - i,
    {
        let p = &pieces[i];
        assert(body[i as int] == p@);
        let line = if p.len() > 0 && p[p.len() - 1] == '\r' {
            subrange(p, 0, p.len() - 1)
        } else {
            subrange(p, 0, p.len())
        };
        proof {
            if p@.len() > 0 && p@.last() == '\r' {
                assert(line@ =~= p@.drop_last());
            } else {
                assert(line@ =~= p@);
            }
        }
        let ghost old_o = views(out@);
        out.push(line);
        assert(views(out@) =~= old_o.push(line@));
        assert(views(out@) =~= Seq::new(
            (i + 1) as nat,
            |k: int|
                if body[k].len() > 0 && body[k].last() == '\r' {
                    body[k].drop_last()
                } else {
                    body[k]
                },
        ));
        i = i + 1;
    }
    let last = &pieces[n];
    assert(pv.last() == last@);
    let ghost stripped = views(out@);
    if last.len() > 0 {
        let l = subrange(last, 0, last.len());
        assert(l@ =~= last@);
        out.push(l);
        assert(views(out@) =~= stripped.push(last@));
    }
    assert(views(out@) =~= lines_of(raw@));
    out
}

/// The accounts described by an import text, one per line that names one.
pub fn parse_accounts(raw: &str) -> (r: Vec<ImportedAccount>)
    ensures
        account_views(r@) == parse_lines(lines_of(raw@)),
        forall|i: int| 0 <= i < r@.len() ==> (#[trigger] r@[i]).email@.contains('@'),
{
    let lines = lines_exec(raw);
    let mut out: Vec<ImportedAccount> = Vec::new();
    let mut i: usize = 0;
    while i < lines.len()
        invariant
            0 <= i <= lines.len(),
            account_views(out@) == parse_lines(views(lines@).take(i as int)),
            forall|k: int| 0 <= k < out@.len() ==> (#[trigger] out@[k]).email@.contains('@'),
        decreases lines.len() - i,
    {
        let ghost t = views(lines@).take(i + 1);
        assert(t.drop_last() =~= views(lines@).take(i as int));
        assert(t.last() == lines@[i as int]@);
        match parse_line_exec(&lines[i]) {
            Some(a) => {
                let ghost old_o = account_views(out@);
                out.push(a);
                assert(account_views(out@) =~= old_o.push(a@));
            },
            None => {},
        }
        i = i + 1;
    }
    assert(views(lines@).take(lines.len() as int) =~= views(lines@));
    out
}

/// The secret stored for an imported account: the password for an IMAP
/// provider; otherwise the refresh token when one is given, else the
/// password.
pub open spec fn import_secret(row: ImportedAccountView, credential_kind: Seq<char>) -> Seq<char> {
    if starts_with(credential_kind, "imap"@) {
        row.password
    } else if trim(row.refresh_token).len() > 0 {
        row.refresh_token
    } else {
        row.password
    }
}

/// The provider an imported account is filed under, and the secret stored
/// for it.
pub fn plan_account_import(row: &ImportedAccount) -> (r: AppResult<(MailProviderDefinition, String)>)
    ensures
        r matches Ok(p) && p.0@ == provider_spec(
            detected_provider(row@.email, row@.provider, trim(row@.refresh_token).len() > 0),
        ) && p.1@ == import_secret(row@, p.0@.credential_kind),
{
    let has_token = trim_str(row.refresh_token.as_str()).len() > 0;
    let explicit: Option<&str> = match &row.provider {
        Some(p) => Some(p.as_str()),
        None => None,
    };
    let provider = match detect_mail_provider(row.email.as_str(), explicit, has_token) {
        Ok(d) => d,
        Err(e) => {
            return Err(e);
        },
    };
    let kind = chars_of(provider.credential_kind);
    let imap = chars_of("imap");
    let secret = if starts_with_exec(&kind, &imap) {
        row.password.clone()
    } else if has_token {
        row.refresh_token.clone()
    } else {
        row.password.clone()
    };
    Ok((provider, secret))
}

/// Trailing whitespace does not change a trimmed text.
proof fn lemma_trim_ignores_trailing_ws(w: Seq<char>, c: char)
    requires
        crate::text::is_ws(c),
    ensures
        trim(w.push(c)) == trim(w),
{
    let s = w.push(c);
    crate::text::lemma_lead_ws_bound(w);
    let i = crate::text::lead_ws(w) as int;
    if i == w.len() {
        crate::text::lemma_lead_ws(s, s.len() as int);
        assert(trim(s) =~= Seq::<char>::empty());
        assert(trim(w) =~= Seq::<char>::empty());
    } else {
        crate::text::lemma_lead_ws(s, i);
        let u = crate::text::trim_start(w);
        assert(crate::text::trim_start(s) =~= u.push(c));
        assert(u.push(c).drop_last() =~= u);
        crate::text::lemma_trail_ws_bound(u);
        assert(trim(s) =~= trim(w));
    }
}

/// The line `str::lines` reports for a piece: without a final `\r`.
pub open spec fn without_cr(p: Seq<char>) -> Seq<char> {
    if p.len() > 0 && p.last() == '\r' {
        p.drop_last()
    } else {
        p
    }
}

/// Parsing lists one after the other parses each list in turn.
proof fn lemma_parse_lines_concat(x: Seq<Seq<char>>, y: Seq<Seq<char>>)
    ensures
        parse_lines(x + y) == parse_lines(x) + parse_lines(y),
    decreases y.len(),
{
    if y.len() == 0 {
        assert(x + y =~= x);
        assert(parse_lines(x) + parse_lines(y) =~= parse_lines(x));
    } else {
        assert((x + y).drop_last() =~= x + y.drop_last());
        lemma_parse_lines_concat(x, y.drop_last());
        match parse_line(y.last()) {
            Some(a) => {
                assert(parse_lines(x + y) =~= parse_lines(x) + parse_lines(y));
            },
            None => {},
        }
    }
}

/// Lines that parse alike give the same accounts.
proof fn lemma_parse_lines_alike(x: Seq<Seq<char>>, y: Seq<Seq<char>>)
    requires
        x.len() == y.len(),
        forall|i: int| 0 <= i < x.len() ==> parse_line(#[trigger] x[i]) == parse_line(y[i]),
    ensures
        parse_lines(x) == parse_lines(y),
    decreases x.len(),
{
    if x.len() > 0 {
        assert(parse_line(x.last()) == parse_line(y.last()));
        lemma_parse_lines_alike(x.drop_last(), y.drop_last());
    }
}

/// Splitting at line breaks around a joining line break splits each side.
proof fn lemma_split_joined(a: Seq<char>, b: Seq<char>)
    ensures
        split(a + seq!['\n'] + b, seq!['\n']) == split(a, seq!['\n']) + split(b, seq!['\n']),
    decreases a.len(),
{
    let nl = seq!['\n'];
    let s = a + nl + b;
    if a.len() == 0 {
        assert(s =~= nl + b);
        assert(starts_with(s, nl)) by {
            assert(s.take(1) =~= nl);
        }
        assert(s.skip(1) =~= b);
        assert(split(a, nl) =~= seq![a]);
        assert(a =~= Seq::<char>::empty());
        assert(split(s, nl) == seq![Seq::<char>::empty()] + split(b, nl));
        assert(split(s, nl) =~= split(a, nl) + split(b, nl));
    } else if a[0] == '\n' {
        assert(starts_with(s, nl)) by {
            assert(s.take(1) =~= nl);
        }
        assert(starts_with(a, nl)) by {
            assert(a.take(1) =~= nl);
        }
        assert(s.skip(1) =~= a.skip(1) + nl + b);
        lemma_split_joined(a.skip(1), b);
        assert(split(s, nl) == seq![Seq::<char>::empty()] + split(s.skip(1), nl));
        assert(split(a, nl) == seq![Seq::<char>::empty()] + split(a.skip(1), nl));
        assert(split(s, nl) =~= split(a, nl) + split(b, nl));
    } else {
        assert(!starts_with(s, nl)) by {
            if starts_with(s, nl) {
                assert(s.take(1)[0] == nl[0]);
            }
        }
        assert(!starts_with(a, nl)) by {
            if starts_with(a, nl) {
                assert(a.take(1)[0] == nl[0]);
            }
        }
        assert(s.drop_first() =~= a.drop_first() + nl + b);
        assert(s[0] == a[0]);
        lemma_split_joined(a.drop_first(), b);
        crate::text::lemma_split_nonempty(a.drop_first(), nl);
        let p = split(a.drop_first(), nl);
        assert(prepend_first(seq![a[0]], p + split(b, nl)) =~= prepend_first(seq![a[0]], p) + split(
            b,
            nl,
        ));
        assert(split(s, nl) == prepend_first(seq![s[0]], split(s.drop_first(), nl)));
        assert(split(a, nl) == prepend_first(seq![a[0]], p));
    }
}

/// Parsing the lines of a text parses the pieces between its line breaks.
proof fn lemma_parse_lines_of(s: Seq<char>)
    ensures
        parse_lines(lines_of(s)) == parse_lines(split(s, seq!['\n'])),
{
    let pieces = split(s, seq!['\n']);
    crate::text::lemma_split_nonempty(s, seq!['\n']);
    let body = pieces.drop_last();
    let stripped = Seq::new(
        body.len(),
        |i: int|
            if body[i].len() > 0 && body[i].last() == '\r' {
                body[i].drop_last()
            } else {
                body[i]
            },
    );
    assert forall|i: int| 0 <= i < stripped.len() implies parse_line(#[trigger] stripped[i])
        == parse_line(body[i]) by {
        if body[i].len() > 0 && body[i].last() == '\r' {
            assert(body[i] =~= body[i].drop_last().push('\r'));
            lemma_trim_ignores_trailing_ws(body[i].drop_last(), '\r');
        }
    }
    lemma_parse_lines_alike(stripped, body);
    assert(pieces =~= body.push(pieces.last()));
    if pieces.last().len() == 0 {
        assert(trim(pieces.last()).len() == 0) by {
            crate::text::lemma_trim_edges(pieces.last());
        }
        assert(parse_lines(pieces) == parse_lines(body));
    } else {
        assert(lines_of(s).drop_last() =~= stripped);
    }
}

/// Every line is read on its own: parsing two texts joined by a line break
/// gives the accounts of the first and then those of the second.
pub proof fn law_import_lines_are_independent(a: Seq<char>, b: Seq<char>)
    ensures
        parse_lines(lines_of(a + seq!['\n'] + b)) == parse_lines(lines_of(a)) + parse_lines(
            lines_of(b),
        ),
{
    lemma_parse_lines_of(a + seq!['\n'] + b);
    lemma_split_joined(a, b);
    lemma_parse_lines_concat(split(a, seq!['\n']), split(b, seq!['\n']));
    lemma_parse_lines_of(a);
    lemma_parse_lines_of(b);
}

/// Trimming keeps every character that is not whitespace.
proof fn lemma_trim_keeps_non_ws(s: Seq<char>, c: char)
    requires
        s.contains(c),
        !crate::text::is_ws(c),
    ensures
        trim(s).contains(c),
{
    let i = choose|i: int| 0 <= i < s.len() && s[i] == c;
    crate::text::lemma_lead_ws_bound(s);
    let lead = crate::text::lead_ws(s) as int;
    assert(lead <= i);
    let t = crate::text::trim_start(s);
    assert(t[i - lead] == c);
    crate::text::lemma_trail_ws_bound(t);
    let keep = t.len() - crate::text::trail_ws(t);
    assert(i - lead < keep);
    assert(trim(s)[i - lead] == c);
}

/// Splitting at a character around one occurrence of it splits each side.
proof fn lemma_split_joined_at(a: Seq<char>, b: Seq<char>, c: char)
    ensures
        split(a + seq![c] + b, seq![c]) == split(a, seq![c]) + split(b, seq![c]),
    decreases a.len(),
{
    let d = seq![c];
    let s = a + d + b;
    if a.len() == 0 {
        assert(s =~= d + b);
        assert(starts_with(s, d)) by {
            assert(s.take(1) =~= d);
        }
        assert(s.skip(1) =~= b);
        assert(a =~= Seq::<char>::empty());
        assert(split(a, d) =~= seq![a]);
        assert(split(s, d) == seq![Seq::<char>::empty()] + split(b, d));
        assert(split(s, d) =~= split(a, d) + split(b, d));
    } else if a[0] == c {
        assert(starts_with(s, d)) by {
            assert(s.take(1) =~= d);
        }
        assert(starts_with(a, d)) by {
            assert(a.take(1) =~= d);
        }
        assert(s.skip(1) =~= a.skip(1) + d + b);
        lemma_split_joined_at(a.skip(1), b, c);
        assert(split(s, d) == seq![Seq::<char>::empty()] + split(s.skip(1), d));
        assert(split(a, d) == seq![Seq::<char>::empty()] + split(a.skip(1), d));
        assert(split(s, d) =~= split(a, d) + split(b, d));
    } else {
        assert(!starts_with(s, d)) by {
            if starts_with(s, d) {
                assert(s.take(1)[0] == d[0]);
            }
        }
        assert(!starts_with(a, d)) by {
            if starts_with(a, d) {
                assert(a.take(1)[0] == d[0]);
            }
        }
        assert(s.drop_first() =~= a.drop_first() + d + b);
        lemma_split_joined_at(a.drop_first(), b, c);
        crate::text::lemma_split_nonempty(a.drop_first(), d);
        let p = split(a.drop_first(), d);
        assert(prepend_first(seq![a[0]], p + split(b, d)) =~= prepend_first(seq![a[0]], p) + split(b, d));
        assert(split(s, d) == prepend_first(seq![s[0]], split(s.drop_first(), d)));
        assert(split(a, d) == prepend_first(seq![a[0]], p));
    }
}

/// A text without the character is one piece.
proof fn lemma_split_without(p: Seq<char>, c: char)
    requires
        !p.contains(c),
    ensures
        split(p, seq![c]) == seq![p],
    decreases p.len(),
{
    let d = seq![c];
    if p.len() > 0 {
        assert(!starts_with(p, d)) by {
            if starts_with(p, d) {
                assert(p.take(1)[0] == d[0]);
                assert(p[0] == c);
            }
        }
        assert(!p.drop_first().contains(c)) by {
            if p.drop_first().contains(c) {
                let i = choose|i: int| 0 <= i < p.drop_first().len() && p.drop_first()[i] == c;
                assert(p[i + 1] == c);
            }
        }
        lemma_split_without(p.drop_first(), c);
        assert(seq![p[0]] + p.drop_first() =~= p);
    } else {
        assert(split(p, d) == seq![p]);
    }
}

/// Joining pieces that do not hold the separator character, then
/// splitting at it, gives the pieces back.
proof fn lemma_split_join(ps: Seq<Seq<char>>, c: char)
    requires
        ps.len() >= 1,
        forall|i: int| 0 <= i < ps.len() ==> !(#[trigger] ps[i]).contains(c),
    ensures
        split(crate::text::join(ps, seq![c]), seq![c]) == ps,
    decreases ps.len(),
{
    if ps.len() == 1 {
        lemma_split_without(ps[0], c);
        assert(seq![ps[0]] =~= ps);
    } else {
        let init = ps.drop_last();
        assert forall|i: int| 0 <= i < init.len() implies !(#[trigger] init[i]).contains(c) by {
            assert(init[i] == ps[i]);
        }
        lemma_split_join(init, c);
        assert(!ps.last().contains(c));
        lemma_split_without(ps.last(), c);
        lemma_split_joined_at(crate::text::join(init, seq![c]), ps.last(), c);
        assert(init + seq![ps.last()] =~= ps);
    }
}

/// A line made of pieces joined by tabs, where no piece holds a tab and the
/// line holds neither `----` nor `|||`, is split at its tabs: its fields are
/// the pieces between the tabs, in order.
pub proof fn law_tab_separated_fields(ps: Seq<Seq<char>>)
    requires
        ps.len() >= 2,
        forall|i: int| 0 <= i < ps.len() ==> !(#[trigger] ps[i]).contains('\t'),
        !contains_seq(crate::text::join(ps, seq!['\t']), "----"@),
        !contains_seq(crate::text::join(ps, seq!['\t']), "|||"@),
    ensures
        split_line_spec(crate::text::join(ps, seq!['\t'])) == ps,
{
    let line = crate::text::join(ps, seq!['\t']);
    let a = crate::text::join(ps.drop_last(), seq!['\t']);
    assert(line == a + seq!['\t'] + ps.last());
    assert(crate::text::matches_at(line, seq!['\t'], a.len() as int)) by {
        assert(line.subrange(a.len() as int, a.len() as int + 1) =~= seq!['\t']);
    }
    lemma_split_join(ps, '\t');
}

/// Fields none of which is a provider assignment are all positional and
/// name no provider.
proof fn lemma_no_assignments(ps: Seq<Seq<char>>)
    requires
        forall|i: int| 0 <= i < ps.len() ==> !is_assignment(#[trigger] ps[i]),
    ensures
        positional(ps) == ps,
        explicit_provider(ps) is None,
    decreases ps.len(),
{
    if ps.len() > 0 {
        let d = ps.drop_last();
        assert forall|i: int| 0 <= i < d.len() implies !is_assignment(#[trigger] d[i]) by {
            assert(d[i] == ps[i]);
        }
        lemma_no_assignments(d);
        assert(d.push(ps.last()) =~= ps);
        let f = ps.drop_first();
        assert forall|i: int| 0 <= i < f.len() implies !is_assignment(#[trigger] f[i]) by {
            assert(f[i] == ps[i + 1]);
        }
        lemma_no_assignments(f);
        assert(!is_assignment(ps[0]));
    }
}

/// A field holding an `@` names no provider.
proof fn lemma_address_names_no_provider(e: Seq<char>)
    requires
        trim(e) == e,
        e.contains('@'),
    ensures
        normalize_provider(e) is None,
{
    let p = lower(trim(e));
    let k = choose|k: int| 0 <= k < e.len() && e[k] == '@';
    assert(p[k] == '@');
    reveal_strlit("graph");
    reveal_strlit("outlook");
    reveal_strlit("microsoft");
    reveal_strlit("msgraph");
    reveal_strlit("gmail");
    reveal_strlit("google");
    reveal_strlit("googlemail");
    reveal_strlit("qq");
    reveal_strlit("qqmail");
    reveal_strlit("imap");
    reveal_strlit("outlook_imap");
    reveal_strlit("netease_163");
    reveal_strlit("163");
    reveal_strlit("netease");
    reveal_strlit("163mail");
    reveal_strlit("imap_custom");
    reveal_strlit("custom_imap");
    reveal_strlit("custom");
    assert(p != "graph"@ && p != "outlook"@ && p != "microsoft"@ && p != "msgraph"@);
    assert(p != "gmail"@ && p != "google"@ && p != "googlemail"@);
    assert(p != "qq"@ && p != "qqmail"@ && p != "imap"@ && p != "outlook_imap"@);
    assert(p != "netease_163"@ && p != "163"@ && p != "netease"@ && p != "163mail"@);
    assert(p != "imap_custom"@ && p != "custom_imap"@ && p != "custom"@);
}

/// A field that is trimmed, holds no tab and is no provider assignment.
pub open spec fn plain_field(x: Seq<char>) -> bool {
    &&& trim(x) == x
    &&& !x.contains('\t')
    &&& !is_assignment(x)
}

/// A tab-separated line of an address, a password, a client id and a
/// refresh token, none of them a provider assignment, gives one account
/// with those fields, its address lower-cased, and no provider.
pub proof fn law_tab_line_account(e: Seq<char>, p: Seq<char>, c: Seq<char>, t: Seq<char>)
    requires
        e.contains('@'),
        e[0] != '#',
        t.len() > 0,
        plain_field(e),
        plain_field(p),
        plain_field(c),
        plain_field(t),
        !contains_seq(crate::text::join(seq![e, p, c, t], seq!['\t']), "----"@),
        !contains_seq(crate::text::join(seq![e, p, c, t], seq!['\t']), "|||"@),
    ensures
        parse_line(crate::text::join(seq![e, p, c, t], seq!['\t'])) == Some(
            (ImportedAccountView {
                email: lowercase(e),
                password: p,
                client_id: c,
                refresh_token: t,
                remark: Seq::empty(),
                provider: None,
            }),
        ),
{
    let ps = seq![e, p, c, t];
    let line = crate::text::join(ps, seq!['\t']);
    assert(ps[0] == e && ps[1] == p && ps[2] == c && ps[3] == t);
    assert(trim(e) == e && trim(t) == t);
    assert(line == crate::text::join(seq![e, p, c], seq!['\t']) + seq!['\t'] + t) by {
        assert(ps.drop_last() =~= seq![e, p, c]);
    }
    assert(crate::text::join(seq![e, p, c], seq!['\t']) == crate::text::join(seq![e, p], seq![
        '\t',
    ]) + seq!['\t'] + c) by {
        assert(seq![e, p, c].drop_last() =~= seq![e, p]);
    }
    assert(crate::text::join(seq![e, p], seq!['\t']) == e + seq!['\t'] + p) by {
        assert(seq![e, p].drop_last() =~= seq![e]);
        assert(crate::text::join(seq![e], seq!['\t']) == e);
    }
    crate::text::lemma_trim_edges(e);
    crate::text::lemma_trim_edges(t);
    assert(line[0] == e[0]);
    assert(line.last() == t.last());
    crate::text::lemma_lead_ws(line, 0);
    assert(line.skip(0) =~= line);
    crate::text::lemma_trail_ws(line, line.len() as int);
    assert(line.take(line.len() as int) =~= line);
    assert(trim(line) == line);
    assert forall|i: int| 0 <= i < ps.len() implies !(#[trigger] ps[i]).contains('\t') by {}
    law_tab_separated_fields(ps);
    let parts = trimmed_fields(line);
    assert(parts =~= ps);
    assert forall|i: int| 0 <= i < ps.len() implies !is_assignment(#[trigger] ps[i]) by {}
    lemma_no_assignments(ps);
    lemma_address_names_no_provider(e);
    lemma_first_email_index(ps, 0);
}

} // verus!
