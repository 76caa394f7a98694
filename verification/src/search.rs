//! The mail search language (free words and `field:value` tokens, with
//! double quotes grouping words) and the SQL conditions and ordering it
//! turns into.
use crate::error::{invalid_input_chars, is_invalid_input, AppResult};
use crate::providers::views_s;
use crate::models::MailMessageQuery;
use crate::storage::{mail_folder, normalize_mail_folder};
use crate::text::{
    append_chars, append_str, chars_of, eq_str, find_char, find_char_exec, is_whitespace, is_ws,
    join, lemma_find_char, lower, opt_chars, or_empty, string_of, subrange, to_ascii_lower, trim,
    trim_chars,
};
use vstd::prelude::*;

verus! {

broadcast use vstd::string::group_string_axioms;

// ---------------------------------------------------------------------------
// Tokens
// ---------------------------------------------------------------------------

/// The tokenizer's state after reading `s`: the finished tokens, the token
/// being read, and whether a quote is open.  Quotes are dropped; whitespace
/// outside quotes ends a token that holds more than whitespace.
pub open spec fn token_state(s: Seq<char>) -> (Seq<Seq<char>>, Seq<char>, bool)
    decreases s.len(),
{
    if s.len() == 0 {
        (Seq::empty(), Seq::empty(), false)
    } else {
        let (tokens, cur, quoted) = token_state(s.drop_last());
        let ch = s.last();
        if ch == '"' {
            (tokens, cur, !quoted)
        } else if is_ws(ch) && !quoted {
            if trim(cur).len() > 0 {
                (tokens.push(trim(cur)), Seq::empty(), quoted)
            } else {
                (tokens, cur, quoted)
            }
        } else {
            (tokens, cur.push(ch), quoted)
        }
    }
}

/// The tokens of a search text, each trimmed and non-empty.
pub open spec fn search_tokens(s: Seq<char>) -> Seq<Seq<char>> {
    let (tokens, cur, _) = token_state(s);
    if trim(cur).len() > 0 {
        tokens.push(trim(cur))
    } else {
        tokens
    }
}

pub fn tokenize_search(value: &str) -> (r: Vec<String>)
    ensures
        views_s(r@) == search_tokens(value@),
{
    let v = chars_of(value);
    let mut tokens: Vec<String> = Vec::new();
    let mut token: Vec<char> = Vec::new();
    let mut in_quote = false;
    let mut i: usize = 0;
    while i < v.len()
        invariant
            0 <= i <= v.len(),
            v@ == value@,
            token_state(v@.take(i as int)) == (views_s(tokens@), token@, in_quote),
        decreases v.len() - i,
    {
        let ch = v[i];
        let ghost t = v@.take(i + 1);
        assert(t.drop_last() =~= v@.take(i as int));
        if ch == '"' {
            in_quote = !in_quote;
        } else if is_whitespace(ch) && !in_quote {
            let tt = trim_chars(&token);
            if tt.len() > 0 {
                let ghost old_t = views_s(tokens@);
                tokens.push(string_of(&tt));
                assert(views_s(tokens@) =~= old_t.push(tt@));
                token = Vec::new();
            }
        } else {
            token.push(ch);
        }
        i = i + 1;
    }
    assert(v@.take(v.len() as int) =~= v@);
    let tt = trim_chars(&token);
    if tt.len() > 0 {
        let ghost old_t = views_s(tokens@);
        tokens.push(string_of(&tt));
        assert(views_s(tokens@) =~= old_t.push(tt@));
    }
    tokens
}

// ---------------------------------------------------------------------------
// Parsed searches
// ---------------------------------------------------------------------------

/// One condition of a search: a text matched against some fields.
#[derive(Debug, Clone)]
pub enum MailSearchTerm {
    Any(String),
    Subject(String),
    Sender(String),
    Recipient(String),
    Body(String),
    ProviderId(String),
}

/// The fields a search term looks at.
#[derive(Debug, Clone, Copy, PartialEq, Eq, Structural)]
pub enum SearchField {
    Any,
    Subject,
    Sender,
    Recipient,
    Body,
    ProviderId,
}

/// The mathematical content of a search term.
pub struct SearchTermSpec {
    pub field: SearchField,
    pub text: Seq<char>,
}

impl View for MailSearchTerm {
    type V = SearchTermSpec;

    open spec fn view(&self) -> SearchTermSpec {
        match self {
            MailSearchTerm::Any(s) => SearchTermSpec { field: SearchField::Any, text: s@ },
            MailSearchTerm::Subject(s) => SearchTermSpec { field: SearchField::Subject, text: s@ },
            MailSearchTerm::Sender(s) => SearchTermSpec { field: SearchField::Sender, text: s@ },
            MailSearchTerm::Recipient(s) => SearchTermSpec {
                field: SearchField::Recipient,
                text: s@,
            },
            MailSearchTerm::Body(s) => SearchTermSpec { field: SearchField::Body, text: s@ },
            MailSearchTerm::ProviderId(s) => SearchTermSpec {
                field: SearchField::ProviderId,
                text: s@,
            },
        }
    }
}

/// A search text read into its conditions and filters.
#[derive(Debug, Clone)]
pub struct ParsedMailSearch {
    pub terms: Vec<MailSearchTerm>,
    pub read_state: Option<String>,
    pub has_attachments: Option<bool>,
    pub folder: Option<String>,
}

/// The mathematical content of a parsed search.
pub struct SearchSpec {
    pub terms: Seq<SearchTermSpec>,
    pub read_state: Option<Seq<char>>,
    pub has_attachments: Option<bool>,
    pub folder: Option<Seq<char>>,
}

pub open spec fn term_views(v: Seq<MailSearchTerm>) -> Seq<SearchTermSpec> {
    Seq::new(v.len(), |i: int| v[i]@)
}

impl View for ParsedMailSearch {
    type V = SearchSpec;

    open spec fn view(&self) -> SearchSpec {
        SearchSpec {
            terms: term_views(self.terms@),
            read_state: opt_chars(self.read_state),
            has_attachments: self.has_attachments,
            folder: opt_chars(self.folder),
        }
    }
}

/// The field a search key names, if it names a text field.
pub open spec fn key_field(key: Seq<char>) -> Option<SearchField> {
    if key == "subject"@ || key == "sub"@ {
        Some(SearchField::Subject)
    } else if key == "from"@ || key == "sender"@ {
        Some(SearchField::Sender)
    } else if key == "to"@ || key == "recipient"@ || key == "recipients"@ || key == "cc"@ {
        Some(SearchField::Recipient)
    } else if key == "body"@ || key == "content"@ || key == "text"@ {
        Some(SearchField::Body)
    } else if key == "id"@ || key == "message"@ || key == "message_id"@ {
        Some(SearchField::ProviderId)
    } else {
        None
    }
}

pub open spec fn add_term(st: SearchSpec, field: SearchField, text: Seq<char>) -> SearchSpec {
    SearchSpec { terms: st.terms.push(SearchTermSpec { field, text }), ..st }
}

/// The effect of one token on a search.  `key:value` tokens with a known key
/// set a field condition or a filter; anything else searches all fields.
pub open spec fn apply_token(st: SearchSpec, token: Seq<char>) -> SearchSpec {
    let token = trim(token);
    if token.len() == 0 {
        st
    } else {
        match find_char(token, ':') {
            None => add_term(st, SearchField::Any, token),
            Some(k) => {
                let key = lower(trim(token.take(k)));
                let raw = trim(token.skip(k + 1));
                let word = lower(raw);
                if key.len() == 0 || raw.len() == 0 {
                    add_term(st, SearchField::Any, token)
                } else if key_field(key) is Some {
                    add_term(st, key_field(key)->0, raw)
                } else if key == "folder"@ || key == "mailbox"@ {
                    SearchSpec { folder: Some(mail_folder(raw)), ..st }
                } else if key == "is"@ || key == "status"@ {
                    if word == "read"@ {
                        SearchSpec { read_state: Some("read"@), ..st }
                    } else if word == "unread"@ {
                        SearchSpec { read_state: Some("unread"@), ..st }
                    } else {
                        add_term(st, SearchField::Any, token)
                    }
                } else if key == "has"@ {
                    if word == "attachment"@ || word == "attachments"@ || word == "file"@ || word
                        == "files"@ {
                        SearchSpec { has_attachments: Some(true), ..st }
                    } else if word == "noattachment"@ || word == "noattachments"@ || word
                        == "nofile"@ || word == "nofiles"@ {
                        SearchSpec { has_attachments: Some(false), ..st }
                    } else {
                        add_term(st, SearchField::Any, token)
                    }
                } else {
                    add_term(st, SearchField::Any, token)
                }
            },
        }
    }
}

/// The search the tokens describe, applied from left to right.
pub open spec fn apply_tokens(tokens: Seq<Seq<char>>) -> SearchSpec
    decreases tokens.len(),
{
    if tokens.len() == 0 {
        SearchSpec {
            terms: Seq::empty(),
            read_state: None,
            has_attachments: None,
            folder: None,
        }
    } else {
        apply_token(apply_tokens(tokens.drop_last()), tokens.last())
    }
}

/// The search a text describes.
pub open spec fn mail_search(value: Seq<char>) -> SearchSpec {
    apply_tokens(search_tokens(value))
}

fn string_from(v: &Vec<char>) -> (r: String)
    ensures
        r@ == v@,
{
    string_of(v)
}

fn push_term(search: &mut ParsedMailSearch, field: SearchField, text: &Vec<char>)
    ensures
        final(search)@ == add_term(old(search)@, field, text@),
{
    let s = string_from(text);
    let term = match field {
        SearchField::Any => MailSearchTerm::Any(s),
        SearchField::Subject => MailSearchTerm::Subject(s),
        SearchField::Sender => MailSearchTerm::Sender(s),
        SearchField::Recipient => MailSearchTerm::Recipient(s),
        SearchField::Body => MailSearchTerm::Body(s),
        SearchField::ProviderId => MailSearchTerm::ProviderId(s),
    };
    let ghost old_terms = term_views(search.terms@);
    search.terms.push(term);
    assert(term_views(search.terms@) =~= old_terms.push(SearchTermSpec { field, text: text@ }));
}

fn key_field_exec(key: &Vec<char>) -> (r: Option<SearchField>)
    ensures
        r == key_field(key@),
{
    if eq_str(key, "subject") || eq_str(key, "sub") {
        Some(SearchField::Subject)
    } else if eq_str(key, "from") || eq_str(key, "sender") {
        Some(SearchField::Sender)
    } else if eq_str(key, "to") || eq_str(key, "recipient") || eq_str(key, "recipients") || eq_str(
        key,
        "cc",
    ) {
        Some(SearchField::Recipient)
    } else if eq_str(key, "body") || eq_str(key, "content") || eq_str(key, "text") {
        Some(SearchField::Body)
    } else if eq_str(key, "id") || eq_str(key, "message") || eq_str(key, "message_id") {
        Some(SearchField::ProviderId)
    } else {
        None
    }
}

fn apply_token_exec(search: &mut ParsedMailSearch, token_text: &str)
    ensures
        final(search)@ == apply_token(old(search)@, token_text@),
{
    let token = trim_str_chars(token_text);
    if token.len() == 0 {
        return;
    }
    proof {
        lemma_find_char(token@, ':');
    }
    let k = match find_char_exec(&token, ':') {
        Some(k) => k,
        None => {
            push_term(search, SearchField::Any, &token);
            return;
        },
    };
    assert(find_char(token@, ':') == Some(k as int));
    let key = to_ascii_lower(&trim_chars(&subrange(&token, 0, k)));
    let raw = trim_chars(&subrange(&token, k + 1, token.len()));
    assert(token@.subrange(0, k as int) =~= token@.take(k as int));
    assert(token@.subrange(k + 1, token.len() as int) =~= token@.skip(k + 1));
    let word = to_ascii_lower(&raw);
    if key.len() == 0 || raw.len() == 0 {
        push_term(search, SearchField::Any, &token);
        return;
    }
    match key_field_exec(&key) {
        Some(field) => {
            push_term(search, field, &raw);
            return;
        },
        None => {},
    }
    if eq_str(&key, "folder") || eq_str(&key, "mailbox") {
        let rs = string_from(&raw);
        search.folder = Some(normalize_mail_folder(rs.as_str()));
    } else if eq_str(&key, "is") || eq_str(&key, "status") {
        if eq_str(&word, "read") {
            search.read_state = Some(string_from(&chars_of("read")));
        } else if eq_str(&word, "unread") {
            search.read_state = Some(string_from(&chars_of("unread")));
        } else {
            push_term(search, SearchField::Any, &token);
        }
    } else if eq_str(&key, "has") {
        if eq_str(&word, "attachment") || eq_str(&word, "attachments") || eq_str(&word, "file")
            || eq_str(&word, "files") {
            search.has_attachments = Some(true);
        } else if eq_str(&word, "noattachment") || eq_str(&word, "noattachments") || eq_str(
            &word,
            "nofile",
        ) || eq_str(&word, "nofiles") {
            search.has_attachments = Some(false);
        } else {
            push_term(search, SearchField::Any, &token);
        }
    } else {
        push_term(search, SearchField::Any, &token);
    }
}

fn trim_str_chars(s: &str) -> (r: Vec<char>)
    ensures
        r@ == trim(s@),
{
    trim_chars(&chars_of(s))
}

/// Reads a search text into field conditions, free words and filters.
pub fn parse_mail_search(value: &str) -> (r: ParsedMailSearch)
    ensures
        r@ == mail_search(value@),
{
    let mut search = ParsedMailSearch {
        terms: Vec::new(),
        read_state: None,
        has_attachments: None,
        folder: None,
    };
    let tokens = tokenize_search(value);
    let ghost ts = views_s(tokens@);
    assert(term_views(search.terms@) =~= Seq::<SearchTermSpec>::empty());
    assert(ts.take(0).len() == 0);
    assert(search@ == apply_tokens(ts.take(0)));
    let mut i: usize = 0;
    while i < tokens.len()
        invariant
            0 <= i <= tokens.len(),
            ts == views_s(tokens@),
            search@ == apply_tokens(ts.take(i as int)),
        decreases tokens.len() - i,
    {
        let ghost t = ts.take(i + 1);
        assert(t.drop_last() =~= ts.take(i as int));
        apply_token_exec(&mut search, tokens[i].as_str());
        i = i + 1;
    }
    assert(ts.take(tokens.len() as int) =~= ts);
    search
}


// ---------------------------------------------------------------------------
// SQL conditions
// ---------------------------------------------------------------------------

/// The SQL condition a term adds; each `?` takes the term's LIKE pattern.
pub open spec fn term_clause(field: SearchField) -> Seq<char> {
    match field {
        SearchField::Any => ANY_CLAUSE@,
        SearchField::Subject => SUBJECT_CLAUSE@,
        SearchField::Sender => SENDER_CLAUSE@,
        SearchField::Recipient => RECIPIENT_CLAUSE@,
        SearchField::Body => BODY_CLAUSE@,
        SearchField::ProviderId => PROVIDER_ID_CLAUSE@,
    }
}

pub const ANY_CLAUSE: &'static str = " AND (m.subject LIKE ? OR m.sender LIKE ? OR m.recipients LIKE ? OR m.cc LIKE ? OR m.body_preview LIKE ? OR COALESCE(m.body, '') LIKE ?)";

pub const SUBJECT_CLAUSE: &'static str = " AND m.subject LIKE ?";

pub const SENDER_CLAUSE: &'static str = " AND m.sender LIKE ?";

pub const RECIPIENT_CLAUSE: &'static str = " AND (m.recipients LIKE ? OR m.cc LIKE ?)";

pub const BODY_CLAUSE: &'static str = " AND (m.body_preview LIKE ? OR COALESCE(m.body, '') LIKE ?)";

pub const PROVIDER_ID_CLAUSE: &'static str = " AND m.provider_message_id LIKE ?";

/// The number of placeholders of a term's condition.
pub open spec fn term_arity(field: SearchField) -> nat {
    match field {
        SearchField::Any => 6,
        SearchField::Subject => 1,
        SearchField::Sender => 1,
        SearchField::Recipient => 2,
        SearchField::Body => 2,
        SearchField::ProviderId => 1,
    }
}

/// A LIKE pattern matching the text anywhere.
pub open spec fn like_pattern(text: Seq<char>) -> Seq<char> {
    seq!['%'] + text + seq!['%']
}

/// `count` copies of the LIKE pattern of `text`.
pub open spec fn like_values(text: Seq<char>, count: nat) -> Seq<Seq<char>> {
    Seq::new(count, |i: int| like_pattern(text))
}

/// The SQL text the terms add, in order.
pub open spec fn terms_sql(terms: Seq<SearchTermSpec>) -> Seq<char>
    decreases terms.len(),
{
    if terms.len() == 0 {
        Seq::empty()
    } else {
        terms_sql(terms.drop_last()) + term_clause(terms.last().field)
    }
}

/// The parameter values the terms add, in order.
pub open spec fn terms_values(terms: Seq<SearchTermSpec>) -> Seq<Seq<char>>
    decreases terms.len(),
{
    if terms.len() == 0 {
        Seq::empty()
    } else {
        terms_values(terms.drop_last()) + like_values(
            terms.last().text,
            term_arity(terms.last().field),
        )
    }
}

/// Appends `count` copies of the LIKE pattern of `value`.
pub fn push_like_values(values: &mut Vec<String>, value: &str, count: usize)
    ensures
        views_s(final(values)@) == views_s(old(values)@) + like_values(value@, count as nat),
{
    let mut pattern: Vec<char> = Vec::new();
    pattern.push('%');
    append_str(&mut pattern, value);
    pattern.push('%');
    assert(pattern@ =~= like_pattern(value@));
    let mut i: usize = 0;
    while i < count
        invariant
            0 <= i <= count,
            pattern@ == like_pattern(value@),
            views_s(values@) == views_s(old(values)@) + like_values(value@, i as nat),
        decreases count - i,
    {
        let ghost before = views_s(values@);
        values.push(string_of(&pattern));
        assert(views_s(values@) =~= before.push(pattern@));
        assert(like_values(value@, (i + 1) as nat) =~= like_values(value@, i as nat).push(
            pattern@,
        ));
        i = i + 1;
    }
}

fn term_parts(term: &MailSearchTerm) -> (r: (&'static str, usize, &String))
    ensures
        r.0@ == term_clause(term@.field),
        r.1 == term_arity(term@.field),
        r.2@ == term@.text,
{
    match term {
        MailSearchTerm::Any(v) => (ANY_CLAUSE, 6, v),
        MailSearchTerm::Subject(v) => (SUBJECT_CLAUSE, 1, v),
        MailSearchTerm::Sender(v) => (SENDER_CLAUSE, 1, v),
        MailSearchTerm::Recipient(v) => (RECIPIENT_CLAUSE, 2, v),
        MailSearchTerm::Body(v) => (BODY_CLAUSE, 2, v),
        MailSearchTerm::ProviderId(v) => (PROVIDER_ID_CLAUSE, 1, v),
    }
}

/// Appends each term's SQL condition to `sql` and its LIKE patterns to
/// `values`, in order.
pub fn append_mail_search_terms(sql: &mut String, values: &mut Vec<String>, terms: &[MailSearchTerm])
    ensures
        final(sql)@ == old(sql)@ + terms_sql(term_views(terms@)),
        views_s(final(values)@) == views_s(old(values)@) + terms_values(term_views(terms@)),
{
    let mut text = chars_of(sql.as_str());
    let ghost tv = term_views(terms@);
    let mut i: usize = 0;
    while i < terms.len()
        invariant
            0 <= i <= terms.len(),
            tv == term_views(terms@),
            text@ == old(sql)@ + terms_sql(tv.take(i as int)),
            views_s(values@) == views_s(old(values)@) + terms_values(tv.take(i as int)),
        decreases terms.len() - i,
    {
        let ghost t = tv.take(i + 1);
        assert(t.drop_last() =~= tv.take(i as int));
        assert(t.last() == terms@[i as int]@);
        let (clause, count, value) = term_parts(&terms[i]);
        append_str(&mut text, clause);
        push_like_values(values, value.as_str(), count);
        assert(text@ =~= old(sql)@ + terms_sql(t));
        assert(views_s(values@) =~= views_s(old(values)@) + terms_values(t));
        i = i + 1;
    }
    assert(tv.take(terms.len() as int) =~= tv);
    *sql = string_of(&text);
}

/// `count` question marks separated by commas.
pub open spec fn placeholders(count: nat) -> Seq<char> {
    join(Seq::new(count, |i: int| seq!['?']), seq![','])
}

pub fn repeat_placeholders(count: usize) -> (r: String)
    ensures
        r@ == placeholders(count as nat),
{
    let mut out: Vec<char> = Vec::new();
    let mut i: usize = 0;
    while i < count
        invariant
            0 <= i <= count,
            out@ == placeholders(i as nat),
        decreases count - i,
    {
        let ghost parts = Seq::new((i + 1) as nat, |j: int| seq!['?']);
        assert(parts.drop_last() =~= Seq::new(i as nat, |j: int| seq!['?']));
        if i > 0 {
            out.push(',');
        }
        out.push('?');
        assert(out@ =~= placeholders((i + 1) as nat));
        i = i + 1;
    }
    string_of(&out)
}

// ---------------------------------------------------------------------------
// Ordering
// ---------------------------------------------------------------------------

/// The SQL direction of a requested sort order (default descending), or
/// the refusal.
pub open spec fn sort_direction(order: Option<&str>) -> Result<Seq<char>, Seq<char>> {
    let o = lower(
        trim(
            match order {
                Some(v) => v@,
                None => "desc"@,
            },
        ),
    );
    if o.len() == 0 || o == "desc"@ {
        Ok("DESC"@)
    } else if o == "asc"@ {
        Ok("ASC"@)
    } else {
        Err("unsupported mail sort_order: "@ + o)
    }
}

/// The ORDER BY clause for a sort key and direction; newest first breaks
/// ties for every key but the date itself.
pub open spec fn sort_clause(key: Seq<char>, dir: Seq<char>) -> Option<Seq<char>> {
    let tie = ", m.received_at_sort DESC, m.id DESC"@;
    if key.len() == 0 || key == "date"@ || key == "received"@ || key == "received_at"@ {
        Some("m.received_at_sort "@ + dir + ", m.id "@ + dir)
    } else if key == "subject"@ {
        Some("LOWER(m.subject) "@ + dir + tie)
    } else if key == "sender"@ || key == "from"@ {
        Some("LOWER(m.sender) "@ + dir + tie)
    } else if key == "read"@ || key == "status"@ {
        Some("m.is_read "@ + dir + tie)
    } else if key == "attachments"@ || key == "files"@ {
        Some("m.has_attachments "@ + dir + tie)
    } else if key == "folder"@ {
        Some("m.folder "@ + dir + tie)
    } else {
        None
    }
}

/// The ordering of a message listing, or why the request is refused.
pub open spec fn mail_sort(sort_by: Option<&str>, sort_order: Option<&str>) -> Result<
    Seq<char>,
    Seq<char>,
> {
    match sort_direction(sort_order) {
        Err(e) => Err(e),
        Ok(dir) => {
            let key = lower(
                trim(
                    match sort_by {
                        Some(v) => v@,
                        None => "date"@,
                    },
                ),
            );
            match sort_clause(key, dir) {
                Some(c) => Ok(c),
                None => Err("unsupported mail sort_by: "@ + key),
            }
        },
    }
}

/// The sort keys a listing offers.
pub open spec fn sort_keys() -> Seq<Seq<char>> {
    seq!["date"@, "subject"@, "sender"@, "read"@, "attachments"@, "folder"@]
}

/// Whatever a request asks, an accepted ordering is one of the fixed
/// clauses: an offered key in ascending or descending order.  No text of
/// the request reaches the SQL.
pub proof fn law_sort_clause_is_fixed_text(sort_by: Option<&str>, sort_order: Option<&str>)
    ensures
        mail_sort(sort_by, sort_order) matches Ok(c) ==> exists|k: Seq<char>, d: Seq<char>|
            sort_keys().contains(k) && (d == "ASC"@ || d == "DESC"@) && #[trigger] sort_clause(k, d)
                == Some(c),
{
    reveal_strlit("date");
    reveal_strlit("received");
    reveal_strlit("received_at");
    reveal_strlit("subject");
    reveal_strlit("sender");
    reveal_strlit("from");
    reveal_strlit("read");
    reveal_strlit("status");
    reveal_strlit("attachments");
    reveal_strlit("files");
    reveal_strlit("folder");
    if let Ok(c) = mail_sort(sort_by, sort_order) {
        let d = sort_direction(sort_order)->Ok_0;
        let key = lower(
            trim(
                match sort_by {
                    Some(v) => v@,
                    None => "date"@,
                },
            ),
        );
        let k = if key.len() == 0 || key == "date"@ || key == "received"@ || key == "received_at"@ {
            "date"@
        } else if key == "subject"@ {
            "subject"@
        } else if key == "sender"@ || key == "from"@ {
            "sender"@
        } else if key == "read"@ || key == "status"@ {
            "read"@
        } else if key == "attachments"@ || key == "files"@ {
            "attachments"@
        } else {
            "folder"@
        };
        assert(sort_keys()[0] == "date"@ && sort_keys()[1] == "subject"@ && sort_keys()[2] == "sender"@
            && sort_keys()[3] == "read"@ && sort_keys()[4] == "attachments"@ && sort_keys()[5]
            == "folder"@);
        assert(sort_keys().contains(k));
        assert("read"@[0] != "date"@[0] && "read"@[0] != "from"@[0]);
        assert("attachments"@[0] != "received_at"@[0]);
        assert("folder"@[0] != "sender"@[0] && "folder"@[0] != "status"@[0]);
        assert(sort_clause(k, d) == Some(c));
    }
}

pub fn mail_sort_clause(sort_by: Option<&str>, sort_order: Option<&str>) -> (r: AppResult<String>)
    ensures
        mail_sort(sort_by, sort_order) matches Ok(c) ==> (r matches Ok(x) && x@ == c),
        mail_sort(sort_by, sort_order) matches Err(m) ==> (r matches Err(e) && is_invalid_input(
            e,
            m,
        )),
{
    let o = to_ascii_lower(
        &trim_chars(
            &match sort_order {
                Some(v) => chars_of(v),
                None => chars_of("desc"),
            },
        ),
    );
    let dir: &str = if o.len() == 0 || eq_str(&o, "desc") {
        "DESC"
    } else if eq_str(&o, "asc") {
        "ASC"
    } else {
        let mut m = chars_of("unsupported mail sort_order: ");
        append_chars(&mut m, &o);
        return Err(invalid_input_chars(&m));
    };
    let key = to_ascii_lower(
        &trim_chars(
            &match sort_by {
                Some(v) => chars_of(v),
                None => chars_of("date"),
            },
        ),
    );
    let tie = ", m.received_at_sort DESC, m.id DESC";
    let mut out: Vec<char>;
    if key.len() == 0 || eq_str(&key, "date") || eq_str(&key, "received") || eq_str(
        &key,
        "received_at",
    ) {
        out = chars_of("m.received_at_sort ");
        append_str(&mut out, dir);
        append_str(&mut out, ", m.id ");
        append_str(&mut out, dir);
    } else {
        let head: &str = if eq_str(&key, "subject") {
            "LOWER(m.subject) "
        } else if eq_str(&key, "sender") || eq_str(&key, "from") {
            "LOWER(m.sender) "
        } else if eq_str(&key, "read") || eq_str(&key, "status") {
            "m.is_read "
        } else if eq_str(&key, "attachments") || eq_str(&key, "files") {
            "m.has_attachments "
        } else if eq_str(&key, "folder") {
            "m.folder "
        } else {
            let mut m = chars_of("unsupported mail sort_by: ");
            append_chars(&mut m, &key);
            return Err(invalid_input_chars(&m));
        };
        out = chars_of(head);
        append_str(&mut out, dir);
        append_str(&mut out, tie);
    }
    Ok(string_of(&out))
}


// ---------------------------------------------------------------------------
// Message queries
// ---------------------------------------------------------------------------

/// A parameter bound to a `?` of a query.
#[derive(Debug, Clone)]
pub enum SqlParam {
    Integer(i64),
    Text(String),
}

/// The mathematical content of a query parameter.
pub enum SqlParamSpec {
    Integer(i64),
    Text(Seq<char>),
}

impl View for SqlParam {
    type V = SqlParamSpec;

    open spec fn view(&self) -> SqlParamSpec {
        match self {
            SqlParam::Integer(i) => SqlParamSpec::Integer(*i),
            SqlParam::Text(s) => SqlParamSpec::Text(s@),
        }
    }
}

pub open spec fn param_views(v: Seq<SqlParam>) -> Seq<SqlParamSpec> {
    Seq::new(v.len(), |i: int| v[i]@)
}

/// The conditions a message query adds after `WHERE 1 = 1`, with the
/// parameters of their placeholders.
#[derive(Debug, Clone)]
pub struct MailQueryFilter {
    pub sql: String,
    pub params: Vec<SqlParam>,
}

/// The folder a query lists: the one asked for, or else the one its
/// search text names, or all.
pub open spec fn query_folder(query: MailMessageQuery) -> Seq<char> {
    let f = mail_folder(
        match query.folder {
            Some(s) => s@,
            None => "all"@,
        },
    );
    if f == "all"@ {
        match mail_search(or_empty(opt_chars(query.search))).folder {
            Some(sf) => sf,
            None => "all"@,
        }
    } else {
        f
    }
}

/// The read state a query lists, or `None` when its filter is invalid:
/// the one asked for, or else the one its search text names, or all.
pub open spec fn query_read_state(query: MailMessageQuery) -> Option<Seq<char>> {
    match crate::storage::read_state_text(opt_chars(query.read_state)) {
        None => None,
        Some(r) => if r == "all"@ {
            match mail_search(or_empty(opt_chars(query.search))).read_state {
                Some(sr) => Some(sr),
                None => Some("all"@),
            }
        } else {
            Some(r)
        },
    }
}


/// Whether a query keeps only messages with attachments (`Some(true)`),
/// only those without, or both.
pub open spec fn query_attachments(query: MailMessageQuery) -> Option<bool> {
    match query.has_attachments {
        Some(b) => Some(b),
        None => mail_search(or_empty(opt_chars(query.search))).has_attachments,
    }
}

/// The conditions and parameters for an account, a folder, a read state, an
/// attachment filter and search terms: each filter that restricts adds its
/// condition, then each term adds its own.
pub open spec fn conditions_of(
    account_id: Option<i64>,
    folder: Seq<char>,
    read: Seq<char>,
    attachments: Option<bool>,
    terms: Seq<SearchTermSpec>,
) -> (Seq<char>, Seq<SqlParamSpec>) {
    let (s1, p1) = match account_id {
        Some(id) => (" AND m.account_id = ?"@, seq![SqlParamSpec::Integer(id)]),
        None => (Seq::empty(), Seq::empty()),
    };
    let (s2, p2) = if folder != "all"@ {
        (s1 + " AND m.folder = ?"@, p1.push(SqlParamSpec::Text(folder)))
    } else {
        (s1, p1)
    };
    let s3 = if read == "read"@ {
        s2 + " AND m.is_read = 1"@
    } else if read == "unread"@ {
        s2 + " AND m.is_read = 0"@
    } else {
        s2
    };
    let (s4, p4) = match attachments {
        Some(b) => (
            s3 + " AND m.has_attachments = ?"@,
            p2.push(SqlParamSpec::Integer(if b { 1 } else { 0 })),
        ),
        None => (s3, p2),
    };
    (
        s4 + terms_sql(terms),
        p4 + Seq::new(
            terms_values(terms).len(),
            |i: int| SqlParamSpec::Text(terms_values(terms)[i]),
        ),
    )
}

/// The conditions of a query whose read-state filter is valid.
pub open spec fn query_conditions(query: MailMessageQuery, read: Seq<char>) -> (
    Seq<char>,
    Seq<SqlParamSpec>,
) {
    conditions_of(
        query.account_id,
        query_folder(query),
        read,
        query_attachments(query),
        mail_search(or_empty(opt_chars(query.search))).terms,
    )
}

fn push_text(out: &mut Vec<char>, lit: &str)
    ensures
        final(out)@ == old(out)@ + lit@,
{
    append_str(out, lit);
}

/// The folder, read state, attachment filter and parsed search of a query.
fn resolve_query(query: &MailMessageQuery) -> (r: AppResult<
    (String, String, Option<bool>, ParsedMailSearch),
>)
    ensures
        match query_read_state(*query) {
            None => r matches Err(e) && is_invalid_input(
                e,
                "read_state must be all, read, or unread"@,
            ),
            Some(read) => r matches Ok((f, rd, att, search)) && f@ == query_folder(*query) && rd@
                == read && att == query_attachments(*query) && search@ == mail_search(
                or_empty(opt_chars(query.search)),
            ),
        },
{
    let search_text: &str = match &query.search {
        Some(s) => s.as_str(),
        None => "",
    };
    proof {
        reveal_strlit("");
    }
    assert(search_text@ =~= or_empty(opt_chars(query.search)));
    let search = parse_mail_search(search_text);
    let folder_arg: &str = match &query.folder {
        Some(s) => s.as_str(),
        None => "all",
    };
    assert(folder_arg@ == match query.folder {
        Some(s) => s@,
        None => "all"@,
    });
    let f = normalize_mail_folder(folder_arg);
    let folder = if eq_str(&chars_of(f.as_str()), "all") {
        match &search.folder {
            Some(sf) => string_of(&chars_of(sf.as_str())),
            None => string_of(&chars_of("all")),
        }
    } else {
        f
    };
    let read_arg: Option<&str> = match &query.read_state {
        Some(s) => Some(s.as_str()),
        None => None,
    };
    assert(crate::text::opt_str_view(read_arg) == opt_chars(query.read_state));
    let r0 = match crate::storage::normalize_read_state(read_arg) {
        Ok(v) => v,
        Err(e) => {
            return Err(e);
        },
    };
    let read = if eq_str(&chars_of(r0.as_str()), "all") {
        match &search.read_state {
            Some(sr) => string_of(&chars_of(sr.as_str())),
            None => string_of(&chars_of("all")),
        }
    } else {
        r0
    };
    let has_attachments: Option<bool> = match query.has_attachments {
        Some(b) => Some(b),
        None => search.has_attachments,
    };
    Ok((folder, read, has_attachments, search))
}

/// The conditions for resolved filters.
fn build_conditions(
    account_id: Option<i64>,
    folder: String,
    read: &String,
    attachments: Option<bool>,
    terms: &Vec<MailSearchTerm>,
) -> (r: MailQueryFilter)
    ensures
        (r.sql@, param_views(r.params@)) == conditions_of(
            account_id,
            folder@,
            read@,
            attachments,
            term_views(terms@),
        ),
{
    let ghost fv = folder@;
    let mut sql: Vec<char> = Vec::new();
    let mut params: Vec<SqlParam> = Vec::new();
    match account_id {
        Some(id) => {
            push_text(&mut sql, " AND m.account_id = ?");
            params.push(SqlParam::Integer(id));
        },
        None => {},
    }
    let fc = chars_of(folder.as_str());
    if !eq_str(&fc, "all") {
        push_text(&mut sql, " AND m.folder = ?");
        params.push(SqlParam::Text(folder));
    }
    let rc = chars_of(read.as_str());
    if eq_str(&rc, "read") {
        push_text(&mut sql, " AND m.is_read = 1");
    } else if eq_str(&rc, "unread") {
        push_text(&mut sql, " AND m.is_read = 0");
    }
    match attachments {
        Some(b) => {
            push_text(&mut sql, " AND m.has_attachments = ?");
            params.push(SqlParam::Integer(if b { 1 } else { 0 }));
        },
        None => {},
    }
    let ghost head = (sql@, param_views(params@));
    let ghost spec = conditions_of(account_id, fv, read@, attachments, term_views(terms@));
    assert(sql@ + terms_sql(term_views(terms@)) == spec.0);
    let mut sql_text = string_of(&sql);
    let mut values: Vec<String> = Vec::new();
    append_mail_search_terms(&mut sql_text, &mut values, terms.as_slice());
    let ghost vs = views_s(values@);
    assert(vs =~= terms_values(term_views(terms@)));
    let mut k: usize = 0;
    while k < values.len()
        invariant
            0 <= k <= values.len(),
            vs == views_s(values@),
            param_views(params@) == head.1 + Seq::new(
                k as nat,
                |i: int| SqlParamSpec::Text(vs[i]),
            ),
        decreases values.len() - k,
    {
        let ghost before = param_views(params@);
        let v = string_of(&chars_of(values[k].as_str()));
        params.push(SqlParam::Text(v));
        assert(param_views(params@) =~= before.push(SqlParamSpec::Text(vs[k as int])));
        assert(head.1 + Seq::new((k + 1) as nat, |i: int| SqlParamSpec::Text(vs[i])) =~= (head.1
            + Seq::new(k as nat, |i: int| SqlParamSpec::Text(vs[i]))).push(
            SqlParamSpec::Text(vs[k as int]),
        ));
        k = k + 1;
    }
    assert(Seq::new(values@.len() as nat, |i: int| SqlParamSpec::Text(vs[i])) =~= Seq::new(
        terms_values(term_views(terms@)).len(),
        |i: int| SqlParamSpec::Text(terms_values(term_views(terms@))[i]),
    ));
    MailQueryFilter { sql: sql_text, params }
}

/// The filter of a message query, or the refusal of its read-state filter.
pub fn mail_query_filter(query: &MailMessageQuery) -> (r: AppResult<MailQueryFilter>)
    ensures
        match query_read_state(*query) {
            None => r matches Err(e) && is_invalid_input(
                e,
                "read_state must be all, read, or unread"@,
            ),
            Some(read) => r matches Ok(f) && (f.sql@, param_views(f.params@)) == query_conditions(
                *query,
                read,
            ),
        },
{
    match resolve_query(query) {
        Err(e) => Err(e),
        Ok((folder, read, attachments, search)) => Ok(
            build_conditions(query.account_id, folder, &read, attachments, &search.terms),
        ),
    }
}

/// The page of a listing: at most `limit` (200 by default, kept between 1
/// and 500) messages after skipping `offset` (not below 0).
pub open spec fn page_window(limit: Option<i64>, offset: Option<i64>) -> (i64, i64) {
    let l = match limit {
        Some(v) => v,
        None => 200,
    };
    let o = match offset {
        Some(v) => v,
        None => 0,
    };
    (if l < 1 { 1 } else if l > 500 { 500 } else { l }, if o < 0 { 0 } else { o })
}

pub fn mail_query_window(limit: Option<i64>, offset: Option<i64>) -> (r: (i64, i64))
    ensures
        r == page_window(limit, offset),
{
    let l = match limit {
        Some(v) => v,
        None => 200,
    };
    let o = match offset {
        Some(v) => v,
        None => 0,
    };
    (
        if l < 1 {
            1
        } else if l > 500 {
            500
        } else {
            l
        },
        if o < 0 {
            0
        } else {
            o
        },
    )
}

/// A text that neither starts nor ends with whitespace is its own trim.
proof fn lemma_already_trimmed(s: Seq<char>)
    requires
        s.len() > 0,
        !is_ws(s[0]),
        !is_ws(s.last()),
    ensures
        trim(s) == s,
{
    crate::text::lemma_lead_ws(s, 0);
    assert(crate::text::trim_start(s) =~= s);
    crate::text::lemma_trail_ws(s, s.len() as int);
    assert(trim(s) =~= s);
}

/// A key of lower-case ASCII letters, followed by a colon and a trimmed,
/// non-empty value, is read as that key and that value.
proof fn lemma_key_token(st: SearchSpec, key: Seq<char>, value: Seq<char>)
    requires
        key.len() > 0,
        forall|i: int| 0 <= i < key.len() ==> 'a' <= #[trigger] key[i] <= 'z',
        value.len() > 0,
        trim(value) == value,
    ensures
        ({
            let token = key + ":"@ + value;
            &&& trim(token) == token
            &&& find_char(token, ':') == Some(key.len() as int)
            &&& lower(trim(token.take(key.len() as int))) == key
            &&& trim(token.skip(key.len() as int + 1)) == value
        }),
{
    reveal_strlit(":");
    let token = key + ":"@ + value;
    crate::text::lemma_trim_edges(value);
    assert(!is_ws(token[0]));
    assert(token.last() == value.last());
    lemma_already_trimmed(token);
    crate::text::lemma_find_char_at(token, ':', key.len() as int);
    assert(token.take(key.len() as int) =~= key);
    lemma_already_trimmed(key);
    assert(lower(key) =~= key);
    assert(token.skip(key.len() as int + 1) =~= value);
}

/// A `to:`, `recipient:`, `recipients:` or `cc:` token with a value adds
/// a term that looks for that value among the recipients, and changes
/// nothing else.
pub proof fn law_recipient_keys_search_recipients(st: SearchSpec, key: Seq<char>, value: Seq<char>)
    requires
        key == "to"@ || key == "recipient"@ || key == "recipients"@ || key == "cc"@,
        value.len() > 0,
        trim(value) == value,
    ensures
        apply_token(st, key + ":"@ + value).terms == st.terms.push(
            SearchTermSpec { field: SearchField::Recipient, text: value },
        ),
        apply_token(st, key + ":"@ + value).read_state == st.read_state,
        apply_token(st, key + ":"@ + value).has_attachments == st.has_attachments,
        apply_token(st, key + ":"@ + value).folder == st.folder,
{
    reveal_strlit("to");
    reveal_strlit("recipient");
    reveal_strlit("recipients");
    reveal_strlit("cc");
    reveal_strlit("subject");
    reveal_strlit("sub");
    reveal_strlit("from");
    reveal_strlit("sender");
    lemma_key_token(st, key, value);
    assert(key != "subject"@ && key != "sub"@ && key != "from"@ && key != "sender"@) by {
        assert(key[0] != 's' && key[0] != 'f');
    }
}

/// A `from:` or `sender:` token with a value adds a term that looks for
/// that value in the sender, and changes nothing else.
pub proof fn law_sender_keys_search_sender(st: SearchSpec, key: Seq<char>, value: Seq<char>)
    requires
        key == "from"@ || key == "sender"@,
        value.len() > 0,
        trim(value) == value,
    ensures
        apply_token(st, key + ":"@ + value).terms == st.terms.push(
            SearchTermSpec { field: SearchField::Sender, text: value },
        ),
        apply_token(st, key + ":"@ + value).read_state == st.read_state,
        apply_token(st, key + ":"@ + value).has_attachments == st.has_attachments,
        apply_token(st, key + ":"@ + value).folder == st.folder,
{
    reveal_strlit("from");
    reveal_strlit("sender");
    reveal_strlit("subject");
    reveal_strlit("sub");
    lemma_key_token(st, key, value);
    assert(key != "subject"@ && key != "sub"@) by {
        if key == "from"@ {
            assert(key[0] != "subject"@[0]);
        } else {
            assert(key.len() != "subject"@.len() && key.len() != "sub"@.len());
        }
    }
}

} // verus!
