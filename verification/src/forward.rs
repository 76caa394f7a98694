//! Forwarding received mail: which channels are configured, the texts sent
//! to them, and the pieces of the SMTP exchange that do not touch the network.
use crate::error::{invalid_input, invalid_input_chars, is_invalid_input, AppError, AppResult};
use crate::providers::views_s;
use crate::text::{
    append_chars, append_str, chars_of, find_char, find_char_exec, lemma_find_char,
    lemma_rfind_char, rfind_char, rfind_char_exec, starts_with, string_of, subrange, trim,
    trim_chars, trim_str,
};
use vstd::prelude::*;

verus! {

broadcast use vstd::string::group_string_axioms;

/// The forwarding and backup settings.
#[derive(Debug, Clone)]
pub struct ForwardSettings {
    pub forward_smtp_host: String,
    pub forward_smtp_port: i64,
    pub forward_smtp_username: String,
    pub forward_smtp_password: String,
    pub forward_smtp_from: String,
    pub forward_smtp_to: String,
    pub forward_telegram_bot_token: String,
    pub forward_telegram_chat_id: String,
    pub forward_wecom_webhook: String,
    pub webdav_url: String,
    pub webdav_username: String,
    pub webdav_password: String,
}

/// A received message as it is forwarded.
#[derive(Debug, Clone)]
pub struct ForwardContent {
    pub account_email: String,
    pub message_id: String,
    pub sender: String,
    pub received_at: String,
    pub subject: String,
    pub body: Option<String>,
    pub body_preview: String,
}

fn is_blank(s: &String) -> (r: bool)
    ensures
        r == (trim(s@).len() == 0),
{
    trim_str(s.as_str()).len() == 0
}

/// The channels a configuration enables, in the order SMTP, Telegram, WeCom:
/// SMTP needs a host and a recipient, Telegram a bot token and a chat id,
/// WeCom a webhook.
pub open spec fn forward_channels(s: ForwardSettings) -> Seq<Seq<char>> {
    let smtp = if trim(s.forward_smtp_host@).len() > 0 && trim(s.forward_smtp_to@).len() > 0 {
        seq!["smtp"@]
    } else {
        Seq::empty()
    };
    let telegram = if trim(s.forward_telegram_bot_token@).len() > 0 && trim(
        s.forward_telegram_chat_id@,
    ).len() > 0 {
        seq!["telegram"@]
    } else {
        Seq::empty()
    };
    let wecom = if trim(s.forward_wecom_webhook@).len() > 0 {
        seq!["wecom"@]
    } else {
        Seq::empty()
    };
    smtp + telegram + wecom
}

pub open spec fn static_views(v: Seq<&'static str>) -> Seq<Seq<char>> {
    Seq::new(v.len(), |i: int| v[i]@)
}

/// `a` is `b` with some entries left out, the rest in order.
pub open spec fn subsequence(a: Seq<Seq<char>>, b: Seq<Seq<char>>) -> bool
    decreases b.len(),
{
    if a.len() == 0 {
        true
    } else if b.len() == 0 {
        false
    } else if a.last() == b.last() {
        subsequence(a.drop_last(), b.drop_last())
    } else {
        subsequence(a, b.drop_last())
    }
}

/// Every channel, in the order they are tried.
pub open spec fn all_forward_channels() -> Seq<Seq<char>> {
    seq!["smtp"@, "telegram"@, "wecom"@]
}

/// A field counts as set when it is not blank.
pub open spec fn set(v: String) -> bool {
    trim(v@).len() > 0
}

/// Setting more forward fields never loses a channel: the channels of `s1`
/// are those of `s2` with some left out, in the same order, and every
/// channel list is drawn, in order and without repeats, from SMTP,
/// Telegram and WeCom.
pub proof fn law_more_forward_fields_keep_channels(s1: ForwardSettings, s2: ForwardSettings)
    requires
        set(s1.forward_smtp_host) ==> set(s2.forward_smtp_host),
        set(s1.forward_smtp_to) ==> set(s2.forward_smtp_to),
        set(s1.forward_telegram_bot_token) ==> set(s2.forward_telegram_bot_token),
        set(s1.forward_telegram_chat_id) ==> set(s2.forward_telegram_chat_id),
        set(s1.forward_wecom_webhook) ==> set(s2.forward_wecom_webhook),
    ensures
        subsequence(forward_channels(s1), forward_channels(s2)),
        subsequence(forward_channels(s2), all_forward_channels()),
{
    reveal_strlit("smtp");
    reveal_strlit("telegram");
    reveal_strlit("wecom");
    assert("smtp"@ != "telegram"@ && "smtp"@ != "wecom"@ && "telegram"@ != "wecom"@) by {
        assert("smtp"@.len() != "telegram"@.len());
        assert("smtp"@[0] != "wecom"@[0]);
        assert("telegram"@.len() != "wecom"@.len());
    }
    reveal_with_fuel(subsequence, 7);
    let a = forward_channels(s1);
    let b = forward_channels(s2);
    assert(a.len() <= 3 && b.len() <= 3);
}

pub fn configured_forward_channels(settings: &ForwardSettings) -> (r: Vec<&'static str>)
    ensures
        static_views(r@) == forward_channels(*settings),
{
    let mut channels: Vec<&'static str> = Vec::new();
    if !is_blank(&settings.forward_smtp_host) && !is_blank(&settings.forward_smtp_to) {
        channels.push("smtp");
    }
    let ghost c1 = static_views(channels@);
    if !is_blank(&settings.forward_telegram_bot_token) && !is_blank(
        &settings.forward_telegram_chat_id,
    ) {
        channels.push("telegram");
    }
    let ghost c2 = static_views(channels@);
    if !is_blank(&settings.forward_wecom_webhook) {
        channels.push("wecom");
    }
    assert(static_views(channels@) =~= forward_channels(*settings));
    channels
}

// ---------------------------------------------------------------------------
// Recipients and senders
// ---------------------------------------------------------------------------

/// Recipient lists separate addresses with commas, semicolons or newlines.
pub open spec fn is_recipient_separator(c: char) -> bool {
    c == ',' || c == ';' || c == '\n'
}

/// The pieces of `s` between separators (at least one, possibly empty).
pub open spec fn recipient_pieces(s: Seq<char>) -> Seq<Seq<char>>
    decreases s.len(),
{
    if s.len() == 0 {
        seq![Seq::empty()]
    } else {
        let p = recipient_pieces(s.drop_last());
        if is_recipient_separator(s.last()) {
            p.push(Seq::empty())
        } else {
            p.update(p.len() - 1, p.last().push(s.last()))
        }
    }
}

pub proof fn lemma_recipient_pieces_nonempty(s: Seq<char>)
    ensures
        recipient_pieces(s).len() >= 1,
    decreases s.len(),
{
    if s.len() > 0 {
        lemma_recipient_pieces_nonempty(s.drop_last());
    }
}

/// The trimmed pieces that are not empty, in order.
pub open spec fn nonblank_trimmed(pieces: Seq<Seq<char>>) -> Seq<Seq<char>>
    decreases pieces.len(),
{
    if pieces.len() == 0 {
        Seq::empty()
    } else if trim(pieces.last()).len() > 0 {
        nonblank_trimmed(pieces.drop_last()).push(trim(pieces.last()))
    } else {
        nonblank_trimmed(pieces.drop_last())
    }
}

/// The addresses of a recipient list.
pub open spec fn recipients_of(value: Seq<char>) -> Seq<Seq<char>> {
    nonblank_trimmed(recipient_pieces(value))
}

pub fn split_recipients(value: &str) -> (r: Vec<String>)
    ensures
        views_s(r@) == recipients_of(value@),
{
    let v = chars_of(value);
    let mut out: Vec<String> = Vec::new();
    let mut cur: Vec<char> = Vec::new();
    let mut i: usize = 0;
    while i < v.len()
        invariant
            0 <= i <= v.len(),
            v@ == value@,
            recipient_pieces(v@.take(i as int)).len() >= 1,
            views_s(out@) == nonblank_trimmed(recipient_pieces(v@.take(i as int)).drop_last()),
            cur@ == recipient_pieces(v@.take(i as int)).last(),
        decreases v.len() - i,
    {
        let c = v[i];
        let ghost t = v@.take(i + 1);
        let ghost p = recipient_pieces(v@.take(i as int));
        assert(t.drop_last() =~= v@.take(i as int));
        if c == ',' || c == ';' || c == '\n' {
            let tc = trim_chars(&cur);
            let ghost before = views_s(out@);
            if tc.len() > 0 {
                out.push(string_of(&tc));
                assert(views_s(out@) =~= before.push(tc@));
            }
            assert(recipient_pieces(t) == p.push(Seq::empty()));
            assert(recipient_pieces(t).drop_last() =~= p);
            assert(p =~= p.drop_last().push(p.last()));
            cur = Vec::new();
        } else {
            cur.push(c);
            let ghost q = p.update(p.len() - 1, p.last().push(c));
            assert(recipient_pieces(t) == q);
            assert(q.drop_last() =~= p.drop_last());
        }
        i = i + 1;
    }
    assert(v@.take(v.len() as int) =~= v@);
    let ghost p = recipient_pieces(v@);
    let tc = trim_chars(&cur);
    let ghost before = views_s(out@);
    if tc.len() > 0 {
        out.push(string_of(&tc));
        assert(views_s(out@) =~= before.push(tc@));
    }
    assert(p =~= p.drop_last().push(p.last()));
    out
}

/// The first value that is not blank, trimmed.
pub open spec fn first_nonblank(values: Seq<Seq<char>>) -> Option<Seq<char>>
    decreases values.len(),
{
    if values.len() == 0 {
        None
    } else if trim(values[0]).len() > 0 {
        Some(trim(values[0]))
    } else {
        first_nonblank(values.drop_first())
    }
}

pub open spec fn slice_views(v: Seq<&str>) -> Seq<Seq<char>> {
    Seq::new(v.len(), |i: int| v[i]@)
}

pub fn first_non_empty(values: &[&str]) -> (r: Option<String>)
    ensures
        match first_nonblank(slice_views(values@)) {
            Some(v) => r matches Some(x) && x@ == v,
            None => r is None,
        },
{
    let ghost vs = slice_views(values@);
    let mut i: usize = 0;
    assert(vs.skip(0) =~= vs);
    while i < values.len()
        invariant
            0 <= i <= values.len(),
            vs == slice_views(values@),
            first_nonblank(vs) == first_nonblank(vs.skip(i as int)),
        decreases values.len() - i,
    {
        assert(vs.skip(i as int)[0] == values@[i as int]@);
        assert(vs.skip(i as int).drop_first() =~= vs.skip(i + 1));
        let t = trim_str(values[i]);
        if t.len() > 0 {
            return Some(string_of(&t));
        }
        i = i + 1;
    }
    None
}

/// A subject as shown: trimmed, or `(no subject)` when blank.
pub open spec fn subject_or_placeholder(subject: Seq<char>) -> Seq<char> {
    if trim(subject).len() == 0 {
        "(no subject)"@
    } else {
        trim(subject)
    }
}

pub fn fallback_subject(subject: &str) -> (r: String)
    ensures
        r@ == subject_or_placeholder(subject@),
{
    let t = trim_str(subject);
    if t.len() == 0 {
        string_of(&chars_of("(no subject)"))
    } else {
        string_of(&t)
    }
}

// ---------------------------------------------------------------------------
// Forwarded texts
// ---------------------------------------------------------------------------

/// The body forwarded: the full body when it is not blank, else the preview.
pub open spec fn forward_body(content: ForwardContent) -> Seq<char> {
    match content.body {
        Some(b) => if trim(b@).len() > 0 {
            b@
        } else {
            content.body_preview@
        },
        None => content.body_preview@,
    }
}

fn forward_body_exec(content: &ForwardContent) -> (r: String)
    ensures
        r@ == forward_body(*content),
{
    match &content.body {
        Some(b) => if !is_blank(b) {
            string_of(&chars_of(b.as_str()))
        } else {
            string_of(&chars_of(content.body_preview.as_str()))
        },
        None => string_of(&chars_of(content.body_preview.as_str())),
    }
}

/// The plain-text form of a forwarded message.
pub open spec fn forward_text(content: ForwardContent) -> Seq<char> {
    "Account: "@ + content.account_email@ + "\nMessage ID: "@ + content.message_id@ + "\nFrom: "@
        + content.sender@ + "\nReceived: "@ + content.received_at@ + "\nSubject: "@
        + subject_or_placeholder(content.subject@) + "\n\n"@ + forward_body(content)
}

pub fn render_forward_text(content: &ForwardContent) -> (r: String)
    ensures
        r@ == forward_text(*content),
{
    let mut out = chars_of("Account: ");
    append_str(&mut out, content.account_email.as_str());
    append_str(&mut out, "\nMessage ID: ");
    append_str(&mut out, content.message_id.as_str());
    append_str(&mut out, "\nFrom: ");
    append_str(&mut out, content.sender.as_str());
    append_str(&mut out, "\nReceived: ");
    append_str(&mut out, content.received_at.as_str());
    append_str(&mut out, "\nSubject: ");
    let s = fallback_subject(content.subject.as_str());
    append_str(&mut out, s.as_str());
    append_str(&mut out, "\n\n");
    let b = forward_body_exec(content);
    append_str(&mut out, b.as_str());
    assert(out@ =~= forward_text(*content));
    string_of(&out)
}

/// The Markdown form of a forwarded message.
pub open spec fn forward_markdown(content: ForwardContent) -> Seq<char> {
    "**"@ + subject_or_placeholder(content.subject@) + "**\n> Account: "@ + content.account_email@
        + "\n> Message ID: "@ + content.message_id@ + "\n> From: "@ + content.sender@
        + "\n> Received: "@ + content.received_at@ + "\n\n"@ + forward_body(content)
}

pub fn render_forward_markdown(content: &ForwardContent) -> (r: String)
    ensures
        r@ == forward_markdown(*content),
{
    let mut out = chars_of("**");
    let s = fallback_subject(content.subject.as_str());
    append_str(&mut out, s.as_str());
    append_str(&mut out, "**\n> Account: ");
    append_str(&mut out, content.account_email.as_str());
    append_str(&mut out, "\n> Message ID: ");
    append_str(&mut out, content.message_id.as_str());
    append_str(&mut out, "\n> From: ");
    append_str(&mut out, content.sender.as_str());
    append_str(&mut out, "\n> Received: ");
    append_str(&mut out, content.received_at.as_str());
    append_str(&mut out, "\n\n");
    let b = forward_body_exec(content);
    append_str(&mut out, b.as_str());
    assert(out@ =~= forward_markdown(*content));
    string_of(&out)
}

/// A message cut to fit a limit of characters: unchanged when it fits,
/// otherwise its first `max - 16` characters and a `...[trimmed]` line.
pub open spec fn trimmed_message(value: Seq<char>, max_chars: nat) -> Seq<char> {
    if value.len() <= max_chars {
        value
    } else {
        value.take(if max_chars >= 16 { max_chars - 16 } else { 0 }) + "\n...[trimmed]"@
    }
}

pub fn trim_message(value: &str, max_chars: usize) -> (r: String)
    ensures
        r@ == trimmed_message(value@, max_chars as nat),
{
    let v = chars_of(value);
    if v.len() <= max_chars {
        return string_of(&v);
    }
    let keep = max_chars.saturating_sub(16);
    let mut out = subrange(&v, 0, keep);
    append_str(&mut out, "\n...[trimmed]");
    assert(v@.subrange(0, keep as int) =~= v@.take(keep as int));
    string_of(&out)
}

/// The address inside angle brackets (`Name <a@b>` gives `a@b`), or the
/// whole trimmed value when there are none in that order.
pub open spec fn smtp_address(value: Seq<char>) -> Seq<char> {
    let v = trim(value);
    match (find_char(v, '<'), rfind_char(v, '>')) {
        (Some(start), Some(end)) => if end > start {
            trim(v.subrange(start + 1, end))
        } else {
            v
        },
        _ => v,
    }
}

pub fn smtp_path(value: &str) -> (r: String)
    ensures
        r@ == smtp_address(value@),
{
    let v = trim_str(value);
    proof {
        lemma_find_char(v@, '<');
        lemma_rfind_char(v@, '>');
    }
    match (find_char_exec(&v, '<'), rfind_char_exec(&v, '>')) {
        (Some(start), Some(end)) => {
            if end > start {
                assert(find_char(v@, '<') == Some(start as int));
                assert(rfind_char(v@, '>') == Some(end as int));
                let inner = subrange(&v, start + 1, end);
                return string_of(&trim_chars(&inner));
            }
            string_of(&v)
        },
        _ => string_of(&v),
    }
}


// ---------------------------------------------------------------------------
// Channels
// ---------------------------------------------------------------------------

/// A forwarding channel.
#[derive(Debug, Clone, Copy, PartialEq, Eq, Structural)]
pub enum ForwardChannel {
    Smtp,
    Telegram,
    Wecom,
}

/// The channel a name selects, exactly as written.
pub open spec fn channel_named(name: Seq<char>) -> Option<ForwardChannel> {
    if name == "smtp"@ {
        Some(ForwardChannel::Smtp)
    } else if name == "telegram"@ {
        Some(ForwardChannel::Telegram)
    } else if name == "wecom"@ {
        Some(ForwardChannel::Wecom)
    } else {
        None
    }
}

pub fn forward_channel(channel: &str) -> (r: AppResult<ForwardChannel>)
    ensures
        match channel_named(channel@) {
            Some(c) => r matches Ok(x) && x == c,
            None => r matches Err(e) && is_invalid_input(
                e,
                "unsupported forwarding channel: "@ + channel@,
            ),
        },
{
    let c = chars_of(channel);
    if crate::text::eq_str(&c, "smtp") {
        Ok(ForwardChannel::Smtp)
    } else if crate::text::eq_str(&c, "telegram") {
        Ok(ForwardChannel::Telegram)
    } else if crate::text::eq_str(&c, "wecom") {
        Ok(ForwardChannel::Wecom)
    } else {
        let mut m = chars_of("unsupported forwarding channel: ");
        append_chars(&mut m, &c);
        Err(invalid_input_chars(&m))
    }
}

/// The longest text sent to Telegram or WeCom, in characters.
pub const FORWARD_MESSAGE_LIMIT: usize = 3900;

/// Where and what a Telegram forward sends.
#[derive(Debug, Clone)]
pub struct TelegramForward {
    pub url: String,
    pub chat_id: String,
    pub text: String,
}

/// A Telegram forward: the bot URL, the chat and the trimmed text; both the
/// bot token and the chat id are needed.
pub fn telegram_forward(settings: &ForwardSettings, content: &ForwardContent) -> (r: AppResult<
    TelegramForward,
>)
    ensures
        (trim(settings.forward_telegram_bot_token@).len() == 0 || trim(
            settings.forward_telegram_chat_id@,
        ).len() == 0) ==> (r matches Err(e) && is_invalid_input(
            e,
            "Telegram bot token and chat id are required"@,
        )),
        (trim(settings.forward_telegram_bot_token@).len() > 0 && trim(
            settings.forward_telegram_chat_id@,
        ).len() > 0) ==> (r matches Ok(t) && t.url@ == "https://api.telegram.org/bot"@ + trim(
            settings.forward_telegram_bot_token@,
        ) + "/sendMessage"@ && t.chat_id@ == trim(settings.forward_telegram_chat_id@) && t.text@
            == trimmed_message(forward_text(*content), FORWARD_MESSAGE_LIMIT as nat)),
{
    let token = trim_str(settings.forward_telegram_bot_token.as_str());
    let chat = trim_str(settings.forward_telegram_chat_id.as_str());
    if token.len() == 0 || chat.len() == 0 {
        return Err(invalid_input("Telegram bot token and chat id are required"));
    }
    let mut url = chars_of("https://api.telegram.org/bot");
    append_chars(&mut url, &token);
    append_str(&mut url, "/sendMessage");
    let text = trim_message(render_forward_text(content).as_str(), FORWARD_MESSAGE_LIMIT);
    Ok(TelegramForward { url: string_of(&url), chat_id: string_of(&chat), text })
}

/// A WeCom forward: the webhook and the trimmed Markdown text.
pub fn wecom_forward(settings: &ForwardSettings, content: &ForwardContent) -> (r: AppResult<
    (String, String),
>)
    ensures
        trim(settings.forward_wecom_webhook@).len() == 0 ==> (r matches Err(e) && is_invalid_input(
            e,
            "WeCom webhook is required"@,
        )),
        trim(settings.forward_wecom_webhook@).len() > 0 ==> (r matches Ok((hook, text)) && hook@
            == trim(settings.forward_wecom_webhook@) && text@ == trimmed_message(
            forward_markdown(*content),
            FORWARD_MESSAGE_LIMIT as nat,
        )),
{
    let hook = trim_str(settings.forward_wecom_webhook.as_str());
    if hook.len() == 0 {
        return Err(invalid_input("WeCom webhook is required"));
    }
    let text = trim_message(render_forward_markdown(content).as_str(), FORWARD_MESSAGE_LIMIT);
    Ok((string_of(&hook), text))
}

/// Where and what an SMTP forward sends.
#[derive(Debug, Clone)]
pub struct SmtpForward {
    pub host: String,
    pub port: u16,
    pub recipients: Vec<String>,
    pub from: String,
    pub subject: String,
    pub body: String,
}

/// An SMTP port as used: the setting kept between 1 and 65535.
pub open spec fn smtp_port_of(port: i64) -> int {
    if port < 1 {
        1
    } else if port > 65535 {
        65535
    } else {
        port as int
    }
}

/// An SMTP forward: the host and the recipient list are needed, and a
/// sender (the configured sender, else the SMTP user, else the account).
pub fn smtp_forward(settings: &ForwardSettings, content: &ForwardContent) -> (r: AppResult<
    SmtpForward,
>)
    ensures
        (trim(settings.forward_smtp_host@).len() == 0 || recipients_of(
            settings.forward_smtp_to@,
        ).len() == 0) ==> (r matches Err(e) && is_invalid_input(
            e,
            "SMTP host and recipient are required"@,
        )),
        (trim(settings.forward_smtp_host@).len() > 0 && recipients_of(
            settings.forward_smtp_to@,
        ).len() > 0) ==> match first_nonblank(
            seq![
                settings.forward_smtp_from@,
                settings.forward_smtp_username@,
                content.account_email@,
            ],
        ) {
            None => r matches Err(e) && is_invalid_input(e, "SMTP sender is required"@),
            Some(from) => r matches Ok(f) && f.host@ == trim(settings.forward_smtp_host@)
                && f.port == smtp_port_of(settings.forward_smtp_port) && views_s(f.recipients@)
                == recipients_of(settings.forward_smtp_to@) && f.from@ == from && f.subject@
                == "Forwarded: "@ + subject_or_placeholder(content.subject@) && f.body@
                == forward_text(*content),
        },
{
    let host = trim_str(settings.forward_smtp_host.as_str());
    let recipients = split_recipients(settings.forward_smtp_to.as_str());
    if host.len() == 0 || recipients.len() == 0 {
        return Err(invalid_input("SMTP host and recipient are required"));
    }
    let candidates: [&str; 3] = [
        settings.forward_smtp_from.as_str(),
        settings.forward_smtp_username.as_str(),
        content.account_email.as_str(),
    ];
    assert(slice_views(candidates@) =~= seq![
        settings.forward_smtp_from@,
        settings.forward_smtp_username@,
        content.account_email@,
    ]);
    let from = match first_non_empty(candidates.as_slice()) {
        Some(f) => f,
        None => {
            return Err(invalid_input("SMTP sender is required"));
        },
    };
    let mut subject = chars_of("Forwarded: ");
    append_str(&mut subject, fallback_subject(content.subject.as_str()).as_str());
    let port: u16 = if settings.forward_smtp_port < 1 {
        1
    } else if settings.forward_smtp_port > 65535 {
        65535
    } else {
        settings.forward_smtp_port as u16
    };
    Ok(
        SmtpForward {
            host: string_of(&host),
            port,
            recipients,
            from,
            subject: string_of(&subject),
            body: render_forward_text(content),
        },
    )
}

// ---------------------------------------------------------------------------
// SMTP exchange
// ---------------------------------------------------------------------------

/// A reply is accepted when it starts with one of the expected codes.
pub open spec fn reply_accepted(response: Seq<char>, expected: Seq<Seq<char>>) -> bool {
    exists|i: int| 0 <= i < expected.len() && starts_with(response, #[trigger] expected[i])
}

/// Checks an SMTP reply against the codes expected; the refusal quotes the
/// trimmed reply.
pub fn expect_smtp_reply(response: &str, expected: &[&str]) -> (r: AppResult<String>)
    ensures
        reply_accepted(response@, slice_views(expected@)) ==> (r matches Ok(x) && x@
            == response@),
        !reply_accepted(response@, slice_views(expected@)) ==> (r matches Err(AppError::Internal(m))
            && m@ == "SMTP unexpected response: "@ + trim(response@)),
{
    let v = chars_of(response);
    let mut i: usize = 0;
    while i < expected.len()
        invariant
            0 <= i <= expected.len(),
            v@ == response@,
            forall|j: int| 0 <= j < i ==> !starts_with(response@, #[trigger] slice_views(expected@)[j]),
        decreases expected.len() - i,
    {
        assert(slice_views(expected@)[i as int] == expected@[i as int]@);
        if crate::text::starts_with_str(&v, expected[i]) {
            return Ok(string_of(&v));
        }
        i = i + 1;
    }
    let mut m = chars_of("SMTP unexpected response: ");
    append_chars(&mut m, &trim_chars(&v));
    Err(AppError::Internal(string_of(&m)))
}

/// The last line of a multi-line SMTP reply has a space after its code:
/// its fourth byte is a space.
pub fn is_final_smtp_line(line: &str) -> (r: bool)
    ensures
        r == (vstd::utf8::encode_utf8(line@).len() > 3 && vstd::utf8::encode_utf8(line@)[3] == 32),
{
    let bytes = line.as_bytes();
    bytes.len() > 3 && bytes[3] == 32
}

/// `str::replace` with a non-empty pattern, as splitting and joining.
pub open spec fn replace_all(s: Seq<char>, from: Seq<char>, to: Seq<char>) -> Seq<char> {
    crate::text::join(crate::text::split(s, from), to)
}

fn replace_all_exec(s: &Vec<char>, from: &Vec<char>, to: &Vec<char>) -> (r: Vec<char>)
    requires
        from.len() > 0,
    ensures
        r@ == replace_all(s@, from@, to@),
{
    let parts = crate::text::split_exec(s, from);
    crate::text::join_exec(&parts, to)
}

/// A message line on the wire: a leading dot doubled, then CRLF.
pub open spec fn stuffed_line(line: Seq<char>) -> Seq<char> {
    (if starts_with(line, seq!['.']) {
        seq!['.']
    } else {
        Seq::empty()
    }) + line + seq!['\r', '\n']
}

pub open spec fn stuffed_lines(lines: Seq<Seq<char>>) -> Seq<char>
    decreases lines.len(),
{
    if lines.len() == 0 {
        Seq::empty()
    } else {
        stuffed_lines(lines.drop_last()) + stuffed_line(lines.last())
    }
}

/// What follows `DATA`: the message with every line break made CRLF, each
/// line dot-stuffed and ended by CRLF, and the terminating `.` line.
pub open spec fn smtp_data(text: Seq<char>) -> Seq<char> {
    let normalized = replace_all(
        replace_all(text, seq!['\r', '\n'], seq!['\n']),
        seq!['\n'],
        seq!['\r', '\n'],
    );
    stuffed_lines(crate::text::split(normalized, seq!['\r', '\n'])) + seq!['.', '\r', '\n']
}

pub fn smtp_data_payload(text: &str) -> (r: String)
    ensures
        r@ == smtp_data(text@),
{
    let mut crlf: Vec<char> = Vec::new();
    crlf.push('\r');
    crlf.push('\n');
    let mut lf: Vec<char> = Vec::new();
    lf.push('\n');
    assert(crlf@ =~= seq!['\r', '\n']);
    assert(lf@ =~= seq!['\n']);
    let once = replace_all_exec(&chars_of(text), &crlf, &lf);
    let normalized = replace_all_exec(&once, &lf, &crlf);
    let lines = crate::text::split_exec(&normalized, &crlf);
    let ghost ls = crate::text::views(lines@);
    let mut out: Vec<char> = Vec::new();
    let mut i: usize = 0;
    while i < lines.len()
        invariant
            0 <= i <= lines.len(),
            ls == crate::text::views(lines@),
            out@ == stuffed_lines(ls.take(i as int)),
        decreases lines.len() - i,
    {
        let ghost t = ls.take(i + 1);
        assert(t.drop_last() =~= ls.take(i as int));
        assert(t.last() == lines@[i as int]@);
        let line = &lines[i];
        let ghost before = out@;
        let dotted = line.len() > 0 && line[0] == '.';
        assert(dotted == starts_with(line@, seq!['.'])) by {
            if line@.len() > 0 {
                assert(line@.take(1) =~= seq![line@[0]]);
                if line@[0] == '.' {
                    assert(line@.take(1) =~= seq!['.']);
                } else {
                    assert(line@.take(1)[0] != seq!['.'][0]);
                }
            }
        }
        let ghost lead: Seq<char> = if dotted { seq!['.'] } else { Seq::empty() };
        if dotted {
            out.push('.');
        }
        assert(out@ =~= before + lead);
        append_chars(&mut out, line);
        out.push('\r');
        out.push('\n');
        assert(out@ =~= before + (lead + line@ + seq!['\r', '\n']));
        assert(out@ =~= before + stuffed_line(line@));
        i = i + 1;
    }
    assert(ls.take(lines.len() as int) =~= ls);
    out.push('.');
    out.push('\r');
    out.push('\n');
    assert(out@ =~= smtp_data(text@));
    string_of(&out)
}

/// The `AUTH PLAIN` command for a user and password.
pub fn smtp_auth_plain_command(username: &str, password: &str) -> (r: String)
    ensures
        r@ == "AUTH PLAIN "@ + crate::crypto::base64_text(
            vstd::utf8::encode_utf8(seq!['\0'] + trim(username@) + seq!['\0'] + password@),
        ) + "\r\n"@,
{
    let mut token: Vec<char> = Vec::new();
    token.push('\0');
    append_chars(&mut token, &trim_str(username));
    token.push('\0');
    append_str(&mut token, password);
    assert(token@ =~= seq!['\0'] + trim(username@) + seq!['\0'] + password@);
    let ts = string_of(&token);
    let encoded = crate::crypto::base64_encode(ts.as_str().as_bytes());
    let mut out = chars_of("AUTH PLAIN ");
    append_str(&mut out, encoded.as_str());
    append_str(&mut out, "\r\n");
    string_of(&out)
}

/// The `CONNECT` request that opens a tunnel through an HTTP proxy, with
/// basic authentication when the proxy URL names a user.
pub open spec fn connect_request(
    host: Seq<char>,
    port: u16,
    username: Seq<char>,
    password: Seq<char>,
) -> Seq<char> {
    let authority = host + ":"@ + crate::text::decimal(port as nat);
    "CONNECT "@ + authority + " HTTP/1.1\r\nHost: "@ + authority
        + "\r\nProxy-Connection: Keep-Alive\r\n"@ + (if username.len() > 0 {
        "Proxy-Authorization: Basic "@ + crate::crypto::base64_text(
            vstd::utf8::encode_utf8(username + ":"@ + password),
        ) + "\r\n"@
    } else {
        Seq::empty()
    }) + "\r\n"@
}

pub fn proxy_connect_request(host: &str, port: u16, username: &str, password: &str) -> (r: String)
    ensures
        r@ == connect_request(host@, port, username@, password@),
{
    let mut authority = chars_of(host);
    append_str(&mut authority, ":");
    append_chars(&mut authority, &crate::text::decimal_u64(port as u64));
    let mut out = chars_of("CONNECT ");
    append_chars(&mut out, &authority);
    append_str(&mut out, " HTTP/1.1\r\nHost: ");
    append_chars(&mut out, &authority);
    append_str(&mut out, "\r\nProxy-Connection: Keep-Alive\r\n");
    let ghost head = out@;
    if username.unicode_len() > 0 {
        let mut credentials = chars_of(username);
        append_str(&mut credentials, ":");
        append_str(&mut credentials, password);
        let cs = string_of(&credentials);
        let token = crate::crypto::base64_encode(cs.as_str().as_bytes());
        append_str(&mut out, "Proxy-Authorization: Basic ");
        append_str(&mut out, token.as_str());
        append_str(&mut out, "\r\n");
    }
    append_str(&mut out, "\r\n");
    assert(out@ =~= connect_request(host@, port, username@, password@));
    string_of(&out)
}

/// A tunnel is open when the proxy's status line reports 200.
pub fn proxy_connect_succeeded(status_line: &str) -> (r: bool)
    ensures
        r == crate::text::contains_seq(status_line@, " 200 "@),
{
    crate::text::contains_str(&chars_of(status_line), " 200 ")
}

/// Where a WebDAV backup is uploaded: the file name, URL-encoded, below the
/// base URL (trimmed, without trailing slashes); the URL is needed.
pub fn webdav_target(base_url: &str, file_name: &str) -> (r: AppResult<String>)
    ensures
        trim(base_url@).len() == 0 ==> (r matches Err(e) && is_invalid_input(
            e,
            "WebDAV URL is required"@,
        )),
        trim(base_url@).len() > 0 ==> (r matches Ok(t) && t@ == crate::text::strip_trailing(
            trim(base_url@),
            '/',
        ) + "/"@ + crate::oauth::url_encoded(file_name@)),
{
    let base = trim_str(base_url);
    if base.len() == 0 {
        return Err(invalid_input("WebDAV URL is required"));
    }
    let mut out = crate::text::strip_trailing_exec(&base, '/');
    append_str(&mut out, "/");
    append_str(&mut out, crate::oauth::url_encode(file_name).as_str());
    string_of_ok(&out)
}

fn string_of_ok(v: &Vec<char>) -> (r: AppResult<String>)
    ensures
        r matches Ok(s) && s@ == v@,
{
    Ok(string_of(v))
}

/// The error after every proxy failed: the last failure, or a placeholder.
pub fn all_proxies_failed(context: &str, last_error: &str, placeholder: &str) -> (r: AppError)
    ensures
        crate::error::is_internal(
            r,
            "all proxy attempts failed for "@ + context@ + ": "@ + if last_error@.len() == 0 {
                placeholder@
            } else {
                last_error@
            },
        ),
{
    let mut m = chars_of("all proxy attempts failed for ");
    append_str(&mut m, context);
    append_str(&mut m, ": ");
    if last_error.unicode_len() == 0 {
        append_str(&mut m, placeholder);
    } else {
        append_str(&mut m, last_error);
    }
    AppError::Internal(string_of(&m))
}

} // verus!
