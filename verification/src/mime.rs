//! MIME messages: the text or HTML body a message shows, the attachments it
//! carries, and the attachment a download asks for.
use crate::error::{invalid_input, is_invalid_input, AppResult};
use crate::models::{AttachmentInfo, DownloadedAttachment};
use crate::clock::{format_utc_rfc3339, now_rfc3339_seconds, utc_rfc3339};
use crate::html::{html_to_plain_text, plain_text};
use crate::providers::{preview_of, text_preview};
use crate::text::{
    chars_of, decimal, decimal_u64, eq_chars, eq_ignore_case, eq_ignore_case_str, lower, opt_chars,
    string_of, text_or_empty, to_ascii_lower, trim, trim_str,
};
use mailparse::MailHeaderMap;
use vstd::prelude::*;

verus! {

broadcast use vstd::string::group_string_axioms;

/// `mailparse::ParsedMail`, carried only into the conversion below.
#[verifier::external_type_specification]
#[verifier::external_body]
pub struct ExParsedMail<'a>(mailparse::ParsedMail<'a>);

/// A part of a MIME message, as the message logic reads it.
#[derive(Debug)]
pub struct MimePart {
    /// The media type, such as `text/plain`.
    pub mimetype: String,
    /// Whether `Content-Disposition` says `attachment`.
    pub attachment: bool,
    /// The `filename` parameter of `Content-Disposition`, if present.
    pub filename: Option<String>,
    /// The `name` parameter of `Content-Type`, if present.
    pub name: Option<String>,
    /// The body decoded as text, where it decodes.
    pub text: Option<String>,
    /// The body's decoded bytes, where they decode.
    pub bytes: Option<Vec<u8>>,
    pub subparts: Vec<MimePart>,
}

/// A parsed message: the first value of each header the logic reads, and
/// its tree of parts.
#[derive(Debug)]
pub struct MimeMessage {
    pub subject: Option<String>,
    pub from: Option<String>,
    pub to: Option<String>,
    pub cc: Option<String>,
    pub date: Option<String>,
    pub message_id: Option<String>,
    pub root: MimePart,
}

/// What `mailparse::parse_mail` reads from raw bytes, in the library's
/// terms, or the text of its error where it refuses them.
pub uninterp spec fn parsed_mime(raw: Seq<u8>) -> Result<MimeMessage, Seq<char>>;

/// The parts of a parsed message, converted one for one.
#[verifier::external_body]
fn mime_part(mail: &mailparse::ParsedMail<'_>) -> MimePart {
    let disposition = mail.get_content_disposition();
    MimePart {
        mimetype: mail.ctype.mimetype.clone(),
        attachment: disposition.disposition == mailparse::DispositionType::Attachment,
        filename: disposition.params.get("filename").cloned(),
        name: mail.ctype.params.get("name").cloned(),
        text: mail.get_body().ok(),
        bytes: mail.get_body_raw().ok(),
        subparts: mail.subparts.iter().map(mime_part).collect(),
    }
}

/// `mailparse::parse_mail`: the claim is only that the result is the one
/// named `parsed_mime` for these bytes.
#[verifier::external_body]
pub(crate) fn parse_mime(raw: &[u8]) -> (r: Result<MimeMessage, String>)
    ensures
        match r {
            Ok(m) => parsed_mime(raw@) == Ok::<MimeMessage, Seq<char>>(m),
            Err(e) => parsed_mime(raw@) == Err::<MimeMessage, Seq<char>>(e@),
        },
{
    match mailparse::parse_mail(raw) {
        Ok(mail) => Ok(MimeMessage {
            subject: mail.headers.get_first_value("Subject"),
            from: mail.headers.get_first_value("From"),
            to: mail.headers.get_first_value("To"),
            cc: mail.headers.get_first_value("Cc"),
            date: mail.headers.get_first_value("Date"),
            message_id: mail.headers.get_first_value("Message-ID"),
            root: mime_part(&mail),
        }),
        Err(err) => Err(err.to_string()),
    }
}

/// A part offered for download: marked as an attachment, or named.
pub open spec fn downloadable(p: MimePart) -> bool {
    p.attachment || p.filename is Some || p.name is Some
}

/// The name an attachment goes by: the disposition's file name when it is
/// given, else the content type's name, trimmed; `attachment` when that is
/// missing or blank.
pub open spec fn attachment_name(p: MimePart) -> Seq<char> {
    let chosen = match p.filename {
        Some(f) => Some(f@),
        None => opt_chars(p.name),
    };
    match chosen {
        Some(n) => if trim(n).len() > 0 {
            trim(n)
        } else {
            "attachment"@
        },
        None => "attachment"@,
    }
}

/// The size of a part's decoded body as a signed 64-bit count, zero where
/// it does not decode.
pub open spec fn part_size(p: MimePart) -> int {
    match p.bytes {
        Some(b) => (b@.len() as i64) as int,
        None => 0,
    }
}

/// What a walk over the parts has gathered: the first plain-text body, the
/// first HTML body, and the attachments in order.
pub struct Gathered {
    pub text: Seq<char>,
    pub html: Seq<char>,
    pub attachments: Seq<(Seq<char>, Seq<char>, int)>,
}

/// The walk over a part: an attachment is listed (by name, type and size)
/// and not entered; a leaf fills the text or HTML body while that is still
/// empty; a multipart part is walked part by part.
pub open spec fn walk(p: MimePart, g: Gathered) -> Gathered
    decreases p, 0int,
{
    if downloadable(p) {
        Gathered {
            attachments: g.attachments.push((attachment_name(p), p.mimetype@, part_size(p))),
            ..g
        }
    } else if p.subparts@.len() == 0 {
        let body = match p.text {
            Some(t) => t@,
            None => Seq::empty(),
        };
        if lower(p.mimetype@) == "text/html"@ && g.html.len() == 0 {
            Gathered { html: body, ..g }
        } else if lower(p.mimetype@) == "text/plain"@ && g.text.len() == 0 {
            Gathered { text: body, ..g }
        } else {
            g
        }
    } else {
        walk_all(p.subparts@, g)
    }
}

pub open spec fn walk_all(ps: Seq<MimePart>, g: Gathered) -> Gathered
    decreases ps, 1int,
{
    if ps.len() == 0 {
        g
    } else {
        walk(ps.last(), walk_all(ps.drop_last(), g))
    }
}

/// The bodies and attachments gathered from a message.
#[derive(Debug, Clone)]
pub struct GatheredParts {
    pub text: String,
    pub html: String,
    pub attachments: Vec<AttachmentInfo>,
}

impl View for GatheredParts {
    type V = Gathered;

    open spec fn view(&self) -> Gathered {
        Gathered {
            text: self.text@,
            html: self.html@,
            attachments: Seq::new(
                self.attachments@.len(),
                |i: int|
                    (
                        self.attachments@[i].name@,
                        self.attachments@[i].content_type@,
                        self.attachments@[i].size as int,
                    ),
            ),
        }
    }
}

/// Every gathered attachment is known by its name.
pub open spec fn ids_are_names(g: GatheredParts) -> bool {
    forall|i: int| 0 <= i < g.attachments@.len() ==> (#[trigger] g.attachments@[i]).id@ == g.attachments@[i].name@
}

fn attachment_name_exec(p: &MimePart) -> (r: String)
    ensures
        r@ == attachment_name(*p),
{
    let chosen: Option<&String> = match &p.filename {
        Some(f) => Some(f),
        None => match &p.name {
            Some(n) => Some(n),
            None => None,
        },
    };
    match chosen {
        Some(n) => {
            let t = trim_str(n.as_str());
            if t.len() > 0 {
                string_of(&t)
            } else {
                string_of(&chars_of("attachment"))
            }
        },
        None => string_of(&chars_of("attachment")),
    }
}

fn gather(p: &MimePart, g: &mut GatheredParts)
    requires
        ids_are_names(*old(g)),
    ensures
        final(g)@ == walk(*p, old(g)@),
        ids_are_names(*final(g)),
    decreases p,
{
    if p.attachment || p.filename.is_some() || p.name.is_some() {
        let name = attachment_name_exec(p);
        let size: i64 = match &p.bytes {
            Some(b) => b.len() as i64,
            None => 0,
        };
        let ghost before = g@;
        g.attachments.push(
            AttachmentInfo {
                id: string_of(&chars_of(name.as_str())),
                name,
                content_type: string_of(&chars_of(p.mimetype.as_str())),
                size,
            },
        );
        assert(g@.attachments =~= before.attachments.push(
            (attachment_name(*p), p.mimetype@, part_size(*p)),
        ));
        return;
    }
    if p.subparts.len() == 0 {
        let body = match &p.text {
            Some(t) => string_of(&chars_of(t.as_str())),
            None => String::new(),
        };
        let kind = to_ascii_lower(&chars_of(p.mimetype.as_str()));
        if crate::text::eq_str(&kind, "text/html") && g.html.as_str().unicode_len() == 0 {
            g.html = body;
        } else if crate::text::eq_str(&kind, "text/plain") && g.text.as_str().unicode_len() == 0 {
            g.text = body;
        }
        return;
    }
    let mut i: usize = 0;
    while i < p.subparts.len()
        invariant
            0 <= i <= p.subparts.len(),
            g@ == walk_all(p.subparts@.take(i as int), old(g)@),
            ids_are_names(*g),
        decreases p.subparts.len() - i,
    {
        assert(p.subparts@.take(i + 1).drop_last() =~= p.subparts@.take(i as int));
        gather(&p.subparts[i], g);
        i = i + 1;
    }
    assert(p.subparts@.take(p.subparts.len() as int) =~= p.subparts@);
}

/// The bodies and attachments of a message: the first plain-text and the
/// first HTML leaf bodies, and every attachment in order.
pub fn gather_parts(root: &MimePart) -> (r: GatheredParts)
    ensures
        r@ == walk(*root, Gathered { text: Seq::empty(), html: Seq::empty(), attachments: Seq::empty() }),
        ids_are_names(r),
{
    let mut g = GatheredParts { text: String::new(), html: String::new(), attachments: Vec::new() };
    assert(g@.attachments =~= Seq::<(Seq<char>, Seq<char>, int)>::empty());
    gather(root, &mut g);
    g
}

/// The body a message shows: its HTML body where it has one, else its
/// plain-text body, with the kind of body.
pub open spec fn shown_body(g: Gathered) -> (Seq<char>, Seq<char>) {
    if g.html.len() > 0 {
        (g.html, "html"@)
    } else {
        (g.text, "text"@)
    }
}

/// What `mailparse::dateparse` reads from a `Date` header: seconds since
/// the epoch, if it accepts the text.
pub uninterp spec fn mime_date_seconds(text: Seq<char>) -> Option<i64>;

/// Calls `mailparse::dateparse`.  The result is named, not described.
#[verifier::external_body]
fn mime_dateparse(text: &str) -> (r: Option<i64>)
    ensures
        r == mime_date_seconds(text@),
{
    mailparse::dateparse(text).ok()
}

/// When a fetched message was received, in RFC 3339 form and in seconds:
/// the server's internal date where it gave one, else the message's `Date`
/// header, else the current time.  A header date chrono cannot represent
/// is written as the current time, keeping the header's seconds.
pub fn received_time(internal: Option<(String, i64)>, date_header: &str) -> (r: (String, i64))
    ensures
        internal matches Some((text, seconds)) ==> r.0@ == text@ && r.1 == seconds,
        internal is None ==> match mime_date_seconds(date_header@) {
            Some(seconds) => r.1 == seconds && (utc_rfc3339(seconds, 0) matches Some(text) ==> r.0@
                == text),
            None => true,
        },
{
    if let Some((text, seconds)) = internal {
        return (text, seconds);
    }
    match mime_dateparse(date_header) {
        Some(seconds) => match format_utc_rfc3339(seconds, 0) {
            Some(text) => (text, seconds),
            None => {
                let (now, _) = now_rfc3339_seconds();
                (now, seconds)
            },
        },
        None => now_rfc3339_seconds(),
    }
}

/// A fetched IMAP message, apart from when it was received.
#[derive(Debug, Clone)]
pub struct ImapMessageContent {
    pub folder: String,
    pub provider_message_id: String,
    pub subject: String,
    pub sender: String,
    pub recipients: String,
    pub cc: String,
    pub date_header: String,
    pub is_read: bool,
    pub has_attachments: bool,
    pub body_preview: String,
    pub body: String,
    pub body_type: String,
    pub attachments: Vec<AttachmentInfo>,
}

pub open spec fn empty_gathered() -> Gathered {
    Gathered { text: Seq::empty(), html: Seq::empty(), attachments: Seq::empty() }
}

/// The preview of a body: its first 30 words, read as plain text first
/// where the body is HTML.
pub open spec fn body_preview_of(body: Seq<char>, body_type: Seq<char>) -> Seq<char> {
    preview_of(if eq_ignore_case(body_type, "html"@) { plain_text(body) } else { body }, 30)
}

fn text_or(v: &Option<String>, fallback: &str) -> (r: String)
    ensures
        r@ == match *v {
            Some(s) => s@,
            None => fallback@,
        },
{
    match v {
        Some(s) => string_of(&chars_of(s.as_str())),
        None => string_of(&chars_of(fallback)),
    }
}

/// The content of a message fetched over IMAP: its headers, the body it
/// shows, a preview and its attachments; a message that does not parse
/// shows an empty text body under `(no subject)`.
pub fn imap_message_content(folder: &str, uid: u32, raw: &[u8], is_read: bool) -> (r:
    ImapMessageContent)
    ensures
        r.folder@ == folder@,
        r.provider_message_id@ == decimal(uid as nat),
        r.is_read == is_read,
        match parsed_mime(raw@) {
            Err(_) => r.subject@ == "(no subject)"@ && r.sender@.len() == 0 && r.recipients@.len() == 0
                && r.cc@.len() == 0 && r.date_header@.len() == 0 && r.body@.len() == 0
                && r.body_type@ == "text"@ && r.attachments@.len() == 0,
            Ok(m) => {
                let g = walk(m.root, empty_gathered());
                &&& r.subject@ == match m.subject {
                    Some(s) => s@,
                    None => "(no subject)"@,
                }
                &&& r.sender@ == text_or_empty(m.from)
                &&& r.recipients@ == text_or_empty(m.to)
                &&& r.cc@ == text_or_empty(m.cc)
                &&& r.date_header@ == text_or_empty(m.date)
                &&& (r.body@, r.body_type@) == shown_body(g)
                &&& r.attachments@.len() == g.attachments.len()
                &&& forall|i: int|
                    0 <= i < r.attachments@.len() ==> ((#[trigger] r.attachments@[i]).name@,
                    r.attachments@[i].content_type@, r.attachments@[i].size as int)
                        == g.attachments[i] && r.attachments@[i].id@ == r.attachments@[i].name@
            },
        },
        r.has_attachments == (r.attachments@.len() > 0),
        r.body_preview@ == body_preview_of(r.body@, r.body_type@),
{
    let parsed = parse_mime(raw);
    match parsed {
        Err(_) => assemble(
            folder,
            uid,
            is_read,
            MessageHeaders {
                subject: string_of(&chars_of("(no subject)")),
                sender: String::new(),
                recipients: String::new(),
                cc: String::new(),
                date: String::new(),
            },
            String::new(),
            string_of(&chars_of("text")),
            Vec::new(),
        ),
        Ok(m) => {
            let g = gather_parts(&m.root);
            let ghost gv = g@;
            proof {
                reveal_strlit("html");
                reveal_strlit("text");
                reveal_strlit("");
            }
            let headers = MessageHeaders {
                subject: text_or(&m.subject, "(no subject)"),
                sender: text_or(&m.from, ""),
                recipients: text_or(&m.to, ""),
                cc: text_or(&m.cc, ""),
                date: text_or(&m.date, ""),
            };
            let shows_html = g.html.as_str().unicode_len() > 0;
            let GatheredParts { text, html, attachments } = g;
            if shows_html {
                assert((html@, "html"@) == shown_body(gv));
                assemble(folder, uid, is_read, headers, html, string_of(&chars_of("html")), attachments)
            } else {
                assert((text@, "text"@) == shown_body(gv));
                assemble(folder, uid, is_read, headers, text, string_of(&chars_of("text")), attachments)
            }
        },
    }
}

/// The header values a message's content keeps.
struct MessageHeaders {
    subject: String,
    sender: String,
    recipients: String,
    cc: String,
    date: String,
}

/// A message's content from its headers, body and attachments.
fn assemble(
    folder: &str,
    uid: u32,
    is_read: bool,
    headers: MessageHeaders,
    body: String,
    body_type: String,
    attachments: Vec<AttachmentInfo>,
) -> (r: ImapMessageContent)
    ensures
        r.folder@ == folder@,
        r.provider_message_id@ == decimal(uid as nat),
        r.is_read == is_read,
        r.subject@ == headers.subject@,
        r.sender@ == headers.sender@,
        r.recipients@ == headers.recipients@,
        r.cc@ == headers.cc@,
        r.date_header@ == headers.date@,
        r.body@ == body@,
        r.body_type@ == body_type@,
        r.attachments@ == attachments@,
        r.has_attachments == (attachments@.len() > 0),
        r.body_preview@ == body_preview_of(body@, body_type@),
{
    let source = if eq_ignore_case_str(&chars_of(body_type.as_str()), "html") {
        html_to_plain_text(body.as_str())
    } else {
        string_of(&chars_of(body.as_str()))
    };
    let body_preview = text_preview(source.as_str(), 30);
    let has_attachments = attachments.len() > 0;
    ImapMessageContent {
        folder: string_of(&chars_of(folder)),
        provider_message_id: string_of(&decimal_u64(uid as u64)),
        subject: headers.subject,
        sender: headers.sender,
        recipients: headers.recipients,
        cc: headers.cc,
        date_header: headers.date,
        is_read,
        has_attachments,
        body_preview,
        body,
        body_type,
        attachments,
    }
}

/// The downloadable parts of a part tree, in order, as (name, media type,
/// decoded bytes).
pub open spec fn downloads(p: MimePart) -> Seq<(Seq<char>, Seq<char>, Seq<u8>)>
    decreases p, 0int,
{
    if downloadable(p) {
        seq![(attachment_name(p), p.mimetype@, match p.bytes {
            Some(b) => b@,
            None => Seq::empty(),
        })]
    } else {
        downloads_all(p.subparts@)
    }
}

pub open spec fn downloads_all(ps: Seq<MimePart>) -> Seq<(Seq<char>, Seq<char>, Seq<u8>)>
    decreases ps, 1int,
{
    if ps.len() == 0 {
        Seq::empty()
    } else {
        downloads_all(ps.drop_last()) + downloads(ps.last())
    }
}

fn collect_downloads(p: &MimePart, out: &mut Vec<DownloadedAttachment>)
    ensures
        download_views(final(out)@) == download_views(old(out)@) + downloads(*p),
    decreases p,
{
    if p.attachment || p.filename.is_some() || p.name.is_some() {
        let bytes: Vec<u8> = match &p.bytes {
            Some(b) => copy_bytes(b),
            None => Vec::new(),
        };
        let ghost before = download_views(out@);
        out.push(
            DownloadedAttachment {
                name: attachment_name_exec(p),
                content_type: string_of(&chars_of(p.mimetype.as_str())),
                bytes,
            },
        );
        assert(download_views(out@) =~= before + downloads(*p));
        return;
    }
    let mut i: usize = 0;
    while i < p.subparts.len()
        invariant
            0 <= i <= p.subparts.len(),
            download_views(out@) == download_views(old(out)@) + downloads_all(
                p.subparts@.take(i as int),
            ),
        decreases p.subparts.len() - i,
    {
        assert(p.subparts@.take(i + 1).drop_last() =~= p.subparts@.take(i as int));
        collect_downloads(&p.subparts[i], out);
        assert(download_views(out@) =~= download_views(old(out)@) + downloads_all(
            p.subparts@.take(i + 1),
        ));
        i = i + 1;
    }
    assert(p.subparts@.take(p.subparts.len() as int) =~= p.subparts@);
}

fn copy_bytes(b: &Vec<u8>) -> (r: Vec<u8>)
    ensures
        r@ == b@,
{
    let mut out: Vec<u8> = Vec::new();
    let mut i: usize = 0;
    while i < b.len()
        invariant
            0 <= i <= b.len(),
            out@ == b@.take(i as int),
        decreases b.len() - i,
    {
        out.push(b[i]);
        assert(b@.take(i + 1) =~= b@.take(i as int).push(b@[i as int]));
        i = i + 1;
    }
    assert(b@.take(b.len() as int) =~= b@);
    out
}

pub open spec fn download_views(v: Seq<DownloadedAttachment>) -> Seq<(Seq<char>, Seq<char>, Seq<u8>)> {
    Seq::new(v.len(), |i: int| (v[i].name@, v[i].content_type@, v[i].bytes@))
}

/// The attachment a download asks for from a cached message: the first
/// downloadable part named by the trimmed id.
pub open spec fn cached_download(raw: Seq<u8>, attachment_id: Seq<char>) -> Result<
    (Seq<char>, Seq<char>, Seq<u8>),
    Seq<char>,
> {
    if trim(attachment_id).len() == 0 {
        Err("attachment id is required"@)
    } else {
        match parsed_mime(raw) {
            Err(e) => Err("cached IMAP MIME could not be parsed: "@ + e),
            Ok(m) => {
                let all = downloads(m.root);
                if exists|i: int| 0 <= i < all.len() && (#[trigger] all[i]).0 == trim(attachment_id) {
                    let k = choose|k: int|
                        0 <= k < all.len() && (#[trigger] all[k]).0 == trim(attachment_id) && forall|j: int|
                            0 <= j < k ==> (#[trigger] all[j]).0 != trim(attachment_id);
                    Ok(all[k])
                } else {
                    Err("attachment was not found in cached IMAP MIME"@)
                }
            },
        }
    }
}

pub fn download_imap_attachment_from_raw(raw_mime: &[u8], attachment_id: &str) -> (r: AppResult<
    DownloadedAttachment,
>)
    ensures
        match cached_download(raw_mime@, attachment_id@) {
            Ok((name, content_type, bytes)) => r matches Ok(d) && d.name@ == name && d.content_type@
                == content_type && d.bytes@ == bytes,
            Err(m) => r matches Err(e) && is_invalid_input(e, m),
        },
{
    let requested = trim_str(attachment_id);
    if requested.len() == 0 {
        return Err(invalid_input("attachment id is required"));
    }
    let m = match parse_mime(raw_mime) {
        Ok(m) => m,
        Err(e) => {
            let mut msg = chars_of("cached IMAP MIME could not be parsed: ");
            crate::text::append_str(&mut msg, e.as_str());
            return Err(crate::error::invalid_input_chars(&msg));
        },
    };
    let mut found: Vec<DownloadedAttachment> = Vec::new();
    collect_downloads(&m.root, &mut found);
    let ghost all = downloads(m.root);
    assert(download_views(found@) =~= all);
    let mut i: usize = 0;
    while i < found.len()
        invariant
            0 <= i <= found.len(),
            download_views(found@) == all,
            all == downloads(m.root),
            requested@ == trim(attachment_id@),
            trim(attachment_id@).len() > 0,
            parsed_mime(raw_mime@) == Ok::<MimeMessage, Seq<char>>(m),
            forall|j: int| 0 <= j < i ==> (#[trigger] all[j]).0 != requested@,
        decreases found.len() - i,
    {
        assert(all[i as int].0 == found@[i as int].name@);
        if eq_chars(&chars_of(found[i].name.as_str()), &requested) {
            let k = i;
            proof {
                assert(all[k as int].0 == trim(attachment_id@));
                let c = choose|c: int|
                    0 <= c < all.len() && (#[trigger] all[c]).0 == trim(attachment_id@) && forall|j: int|
                        0 <= j < c ==> (#[trigger] all[j]).0 != trim(attachment_id@);
                if c < k {
                } else if c > k {
                    assert(all[k as int].0 != trim(attachment_id@));
                }
            }
            let d = found.swap_remove(k);
            return Ok(d);
        }
        i = i + 1;
    }
    assert forall|i: int| 0 <= i < all.len() implies (#[trigger] all[i]).0 != trim(attachment_id@) by {}
    Err(invalid_input("attachment was not found in cached IMAP MIME"))
}

/// The plain-text and HTML bodies a part offers, every part counted: a
/// leaf offers its body as what its media type says, a multipart part the
/// first non-empty body of each kind among its parts.
pub open spec fn bodies(p: MimePart) -> (Seq<char>, Seq<char>)
    decreases p, 0int,
{
    if p.subparts@.len() == 0 {
        let body = match p.text {
            Some(t) => t@,
            None => Seq::empty(),
        };
        if lower(p.mimetype@) == "text/html"@ {
            (Seq::empty(), body)
        } else if lower(p.mimetype@) == "text/plain"@ {
            (body, Seq::empty())
        } else {
            (Seq::empty(), Seq::empty())
        }
    } else {
        bodies_all(p.subparts@)
    }
}

pub open spec fn bodies_all(ps: Seq<MimePart>) -> (Seq<char>, Seq<char>)
    decreases ps, 1int,
{
    if ps.len() == 0 {
        (Seq::empty(), Seq::empty())
    } else {
        let prev = bodies_all(ps.drop_last());
        let next = bodies(ps.last());
        (
            if prev.0.len() == 0 {
                next.0
            } else {
                prev.0
            },
            if prev.1.len() == 0 {
                next.1
            } else {
                prev.1
            },
        )
    }
}

pub fn mime_bodies(p: &MimePart) -> (r: (String, String))
    ensures
        (r.0@, r.1@) == bodies(*p),
    decreases p,
{
    if p.subparts.len() == 0 {
        let body = match &p.text {
            Some(t) => string_of(&chars_of(t.as_str())),
            None => String::new(),
        };
        let kind = to_ascii_lower(&chars_of(p.mimetype.as_str()));
        if crate::text::eq_str(&kind, "text/html") {
            return (String::new(), body);
        } else if crate::text::eq_str(&kind, "text/plain") {
            return (body, String::new());
        }
        return (String::new(), String::new());
    }
    let mut plain = String::new();
    let mut html = String::new();
    let mut i: usize = 0;
    while i < p.subparts.len()
        invariant
            0 <= i <= p.subparts.len(),
            (plain@, html@) == bodies_all(p.subparts@.take(i as int)),
        decreases p.subparts.len() - i,
    {
        assert(p.subparts@.take(i + 1).drop_last() =~= p.subparts@.take(i as int));
        let (part_plain, part_html) = mime_bodies(&p.subparts[i]);
        if plain.as_str().unicode_len() == 0 {
            plain = part_plain;
        }
        if html.as_str().unicode_len() == 0 {
            html = part_html;
        }
        i = i + 1;
    }
    assert(p.subparts@.take(p.subparts.len() as int) =~= p.subparts@);
    (plain, html)
}

/// A message with an HTML body shows that HTML body, whatever plain-text
/// body it also has; only a message without one shows its plain text.
pub proof fn law_html_body_is_shown(g: Gathered)
    ensures
        g.html.len() > 0 ==> shown_body(g).0 == g.html && shown_body(g).1 == "html"@,
        g.html.len() == 0 ==> shown_body(g).0 == g.text && shown_body(g).1 == "text"@,
{
}

} // verus!
