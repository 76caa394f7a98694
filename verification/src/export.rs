//! Export formats: CSV rows, the HTML mail export, safe file names and the
//! stored ZIP bundle of attachments.
use crate::clock::{file_stamp_shape, now_file_stamp, now_rfc3339, FILE_STAMP_FORMAT};
use crate::error::{invalid_input, is_invalid_input, AppError, AppResult};
use crate::crypto::{decrypt_nonce_invalid, decrypt_outcome, decrypt_text_checked};
use crate::models::{Account, AttachmentInfo, ExportAccountsInput};
use crate::providers::views_s;
use crate::text::{
    append_chars, append_str, chars_of, decimal, decimal_i64, decimal_int, decimal_u64, eq_chars,
    eq_str, join, join_exec, lemma_rfind_char, rfind_char, rfind_char_exec, string_of,
    strip_leading, strip_leading_exec, subrange, text_or_empty, trim, trim_chars, views,
};
use vstd::prelude::*;
use vstd::slice::slice_to_vec;

verus! {

broadcast use vstd::string::group_string_axioms;

// ---------------------------------------------------------------------------
// CSV
// ---------------------------------------------------------------------------

/// `s` with every `"` doubled.
pub open spec fn double_quotes(s: Seq<char>) -> Seq<char>
    decreases s.len(),
{
    if s.len() == 0 {
        Seq::empty()
    } else {
        double_quotes(s.drop_last()) + if s.last() == '"' {
            seq!['"', '"']
        } else {
            seq![s.last()]
        }
    }
}

/// A CSV field needs quoting when it holds a comma, a quote or a line break.
pub open spec fn needs_csv_quotes(s: Seq<char>) -> bool {
    s.contains(',') || s.contains('"') || s.contains('\n') || s.contains('\r')
}

/// A CSV field as written: quoted, with inner quotes doubled, when needed.
pub open spec fn csv_field(s: Seq<char>) -> Seq<char> {
    if needs_csv_quotes(s) {
        seq!['"'] + double_quotes(s) + seq!['"']
    } else {
        s
    }
}

pub fn csv_escape(value: &str) -> (r: String)
    ensures
        r@ == csv_field(value@),
{
    let v = chars_of(value);
    let mut quote = false;
    let mut doubled: Vec<char> = Vec::new();
    let mut i: usize = 0;
    while i < v.len()
        invariant
            0 <= i <= v.len(),
            doubled@ == double_quotes(v@.take(i as int)),
            quote == needs_csv_quotes(v@.take(i as int)),
        decreases v.len() - i,
    {
        let c = v[i];
        let ghost t = v@.take(i + 1);
        assert(t.drop_last() =~= v@.take(i as int));
        proof {
            let p = v@.take(i as int);
            assert forall|x: char| t.contains(x) <==> (p.contains(x) || x == c) by {
                if t.contains(x) {
                    let k = choose|k: int| 0 <= k < t.len() && t[k] == x;
                    if k < p.len() {
                        assert(p[k] == x);
                    }
                }
                if p.contains(x) {
                    let k = choose|k: int| 0 <= k < p.len() && p[k] == x;
                    assert(t[k] == x);
                }
                if x == c {
                    assert(t[i as int] == x);
                }
            }
        }
        if c == '"' {
            doubled.push('"');
            doubled.push('"');
        } else {
            doubled.push(c);
        }
        if c == ',' || c == '"' || c == '\n' || c == '\r' {
            quote = true;
        }
        assert(doubled@ =~= double_quotes(t));
        i = i + 1;
    }
    assert(v@.take(v.len() as int) =~= v@);
    if quote {
        let mut out: Vec<char> = Vec::new();
        out.push('"');
        append_chars(&mut out, &doubled);
        out.push('"');
        assert(out@ =~= seq!['"'] + double_quotes(v@) + seq!['"']);
        string_of(&out)
    } else {
        string_of(&v)
    }
}

/// The fields joined by commas, each escaped, ending with a newline.
pub open spec fn csv_line(fields: Seq<Seq<char>>) -> Seq<char>
    decreases fields.len(),
{
    if fields.len() == 0 {
        seq!['\n']
    } else if fields.len() == 1 {
        csv_field(fields[0]) + seq!['\n']
    } else {
        csv_line(fields.drop_last()).drop_last() + seq![','] + csv_field(fields.last()) + seq![
            '\n',
        ]
    }
}

pub open spec fn field_views(fields: Seq<&str>) -> Seq<Seq<char>> {
    Seq::new(fields.len(), |i: int| fields[i]@)
}

fn csv_row_chars(fields: &Vec<Vec<char>>) -> (r: Vec<char>)
    ensures
        r@ == csv_line(views(fields@)),
{
    let mut out: Vec<char> = Vec::new();
    let mut i: usize = 0;
    while i < fields.len()
        invariant
            0 <= i <= fields.len(),
            out@.push('\n') == csv_line(views(fields@).take(i as int)),
        decreases fields.len() - i,
    {
        let ghost t = views(fields@).take(i + 1);
        assert(t.drop_last() =~= views(fields@).take(i as int));
        let ghost before = out@;
        if i > 0 {
            out.push(',');
        }
        let e = csv_escape(string_of(&fields[i]).as_str());
        append_str(&mut out, e.as_str());
        proof {
            assert(t.last() == fields@[i as int]@);
            if i > 0 {
                assert(before.push('\n').drop_last() =~= before);
            }
            assert(out@.push('\n') =~= csv_line(t));
        }
        i = i + 1;
    }
    assert(views(fields@).take(fields.len() as int) =~= views(fields@));
    out.push('\n');
    out
}

pub fn csv_row(fields: &[&str]) -> (r: String)
    ensures
        r@ == csv_line(field_views(fields@)),
{
    let mut parts: Vec<Vec<char>> = Vec::new();
    let mut i: usize = 0;
    while i < fields.len()
        invariant
            0 <= i <= fields.len(),
            parts.len() == i,
            views(parts@) =~= field_views(fields@).take(i as int),
        decreases fields.len() - i,
    {
        parts.push(chars_of(fields[i]));
        assert(views(parts@) =~= field_views(fields@).take(i + 1));
        i = i + 1;
    }
    assert(field_views(fields@).take(fields.len() as int) =~= field_views(fields@));
    string_of(&csv_row_chars(&parts))
}

// ---------------------------------------------------------------------------
// HTML
// ---------------------------------------------------------------------------

/// The HTML escape of one character.
pub open spec fn html_char(c: char) -> Seq<char> {
    if c == '&' {
        "&amp;"@
    } else if c == '<' {
        "&lt;"@
    } else if c == '>' {
        "&gt;"@
    } else if c == '"' {
        "&quot;"@
    } else if c == '\'' {
        "&#39;"@
    } else {
        seq![c]
    }
}

/// Text made safe for HTML: `& < > " '` become entities.
pub open spec fn html_escaped(s: Seq<char>) -> Seq<char>
    decreases s.len(),
{
    if s.len() == 0 {
        Seq::empty()
    } else {
        html_escaped(s.drop_last()) + html_char(s.last())
    }
}

/// A character that would open or close markup or a quoted attribute.
pub open spec fn is_markup_char(c: char) -> bool {
    c == '<' || c == '>' || c == '"' || c == '\''
}

/// Escaped text carries no markup: none of `< > " '` is left in it, so it
/// can stand in an element or a quoted attribute of an export.
pub proof fn law_escaped_html_holds_no_markup(s: Seq<char>)
    ensures
        forall|i: int| 0 <= i < html_escaped(s).len() ==> !is_markup_char(#[trigger] html_escaped(s)[i]),
    decreases s.len(),
{
    if s.len() > 0 {
        law_escaped_html_holds_no_markup(s.drop_last());
        reveal_strlit("&amp;");
        reveal_strlit("&lt;");
        reveal_strlit("&gt;");
        reveal_strlit("&quot;");
        reveal_strlit("&#39;");
        let head = html_escaped(s.drop_last());
        let tail = html_char(s.last());
        assert forall|i: int| 0 <= i < html_escaped(s).len() implies !is_markup_char(
            #[trigger] html_escaped(s)[i],
        ) by {
            if i < head.len() {
                assert(html_escaped(s)[i] == head[i]);
            } else {
                assert(html_escaped(s)[i] == tail[i - head.len()]);
            }
        }
    }
}

/// Appends the HTML escape of `s` to `out`.
pub fn push_html_escaped(out: &mut Vec<char>, s: &str)
    ensures
        final(out)@ == old(out)@ + html_escaped(s@),
{
    let v = chars_of(s);
    let mut i: usize = 0;
    while i < v.len()
        invariant
            0 <= i <= v.len(),
            v@ == s@,
            out@ == old(out)@ + html_escaped(v@.take(i as int)),
        decreases v.len() - i,
    {
        let c = v[i];
        let ghost t = v@.take(i + 1);
        assert(t.drop_last() =~= v@.take(i as int));
        let ghost before = out@;
        if c == '&' {
            append_str(out, "&amp;");
        } else if c == '<' {
            append_str(out, "&lt;");
        } else if c == '>' {
            append_str(out, "&gt;");
        } else if c == '"' {
            append_str(out, "&quot;");
        } else if c == '\'' {
            append_str(out, "&#39;");
        } else {
            out.push(c);
        }
        assert(out@ =~= before + html_char(c));
        assert(out@ =~= old(out)@ + html_escaped(t));
        i = i + 1;
    }
    assert(v@.take(v.len() as int) =~= v@);
}

/// The escape of a non-empty text is the escape of its first character
/// followed by that of the rest.
proof fn lemma_escaped_front(s: Seq<char>)
    requires
        s.len() > 0,
    ensures
        html_escaped(s) == html_char(s[0]) + html_escaped(s.drop_first()),
    decreases s.len(),
{
    if s.len() == 1 {
        assert(s.drop_last() =~= Seq::<char>::empty());
        assert(s.drop_first() =~= Seq::<char>::empty());
        assert(html_escaped(s.drop_last()) == Seq::<char>::empty());
        assert(s.last() == s[0]);
        assert(html_escaped(s) == html_escaped(s.drop_last()) + html_char(s.last()));
        assert(html_escaped(s) =~= html_char(s[0]));
    } else {
        lemma_escaped_front(s.drop_last());
        assert(s.drop_last().drop_first() =~= s.drop_first().drop_last());
        assert(s.drop_first().last() == s.last());
        assert(s.drop_last()[0] == s[0]);
        assert(html_escaped(s) =~= html_char(s[0]) + html_escaped(s.drop_first()));
    }
}

/// The entity scanner reads a short name without `;` up to the `;` after it.
proof fn lemma_scan_short_name(t: Seq<char>, n: int, k: int)
    requires
        0 <= k <= n <= 4,
        n < t.len(),
        t[n] == ';',
        forall|i: int| 0 <= i < n ==> t[i] != ';',
    ensures
        crate::html::entity_scan(t, k) == (n + 1, true),
    decreases n - k,
{
    if k < n {
        crate::text::lemma_utf8_len_bound(t.take(k + 1));
        lemma_scan_short_name(t, n, k + 1);
    }
}

/// An entity with a short name decodes to its character, and decoding
/// goes on after its `;`.
pub(crate) proof fn lemma_decode_named(name: Seq<char>, c: char, rest: Seq<char>)
    requires
        name.len() <= 4,
        forall|i: int| 0 <= i < name.len() ==> name[i] != ';',
        crate::html::entity_char(name) == Some(c),
    ensures
        crate::html::decode_entities(seq!['&'] + name + seq![';'] + rest) == seq![c]
            + crate::html::decode_entities(rest),
{
    let s = seq!['&'] + name + seq![';'] + rest;
    let t = s.drop_first();
    assert(t =~= name + seq![';'] + rest);
    lemma_scan_short_name(t, name.len() as int, 0);
    assert(t.take(name.len() as int) =~= name);
    assert(t.skip(name.len() as int + 1) =~= rest);
}

/// Escaping one character and decoding gives the character back.
proof fn lemma_decode_escaped_char(c: char, rest: Seq<char>)
    ensures
        crate::html::decode_entities(html_char(c) + rest) == seq![c] + crate::html::decode_entities(
            rest,
        ),
{
    reveal_strlit("amp");
    reveal_strlit("lt");
    reveal_strlit("gt");
    reveal_strlit("quot");
    reveal_strlit("apos");
    reveal_strlit("nbsp");
    reveal_strlit("#x");
    reveal_strlit("#X");
    reveal_strlit("#");
    reveal_strlit("&amp;");
    reveal_strlit("&lt;");
    reveal_strlit("&gt;");
    reveal_strlit("&quot;");
    reveal_strlit("&#39;");
    if c == '&' {
        assert(html_char(c) =~= seq!['&'] + "amp"@ + seq![';']);
        lemma_decode_named("amp"@, c, rest);
    } else if c == '<' {
        assert(html_char(c) =~= seq!['&'] + "lt"@ + seq![';']);
        lemma_decode_named("lt"@, c, rest);
    } else if c == '>' {
        assert(html_char(c) =~= seq!['&'] + "gt"@ + seq![';']);
        assert("gt"@ != "lt"@) by {
            assert("gt"@[0] != "lt"@[0]);
        }
        lemma_decode_named("gt"@, c, rest);
    } else if c == '"' {
        assert(html_char(c) =~= seq!['&'] + "quot"@ + seq![';']);
        lemma_decode_named("quot"@, c, rest);
    } else if c == '\'' {
        let e = seq!['#', '3', '9'];
        assert(html_char(c) =~= seq!['&'] + e + seq![';']);
        assert(e != "amp"@ && e != "lt"@ && e != "gt"@ && e != "quot"@ && e != "apos"@ && e
            != "nbsp"@) by {
            assert(e[0] != "amp"@[0]);
        }
        assert(!crate::text::starts_with(e, "#x"@) && !crate::text::starts_with(e, "#X"@)) by {
            assert(e.take(2)[1] != "#x"@[1]);
            assert(e.take(2)[1] != "#X"@[1]);
        }
        assert(crate::text::starts_with(e, "#"@)) by {
            assert(e.take(1) =~= "#"@);
        }
        let d = e.skip(1);
        assert(d =~= seq!['3', '9']);
        assert(d.drop_last() =~= seq!['3']);
        assert(d.drop_last().drop_last() =~= Seq::<char>::empty());
        assert(crate::html::digit_value('3', 10) == Some(3nat));
        assert(crate::html::digit_value('9', 10) == Some(9nat));
        assert(crate::html::digits_value(d.drop_last().drop_last(), 10) == Some(0nat));
        assert(crate::html::digits_value(d.drop_last(), 10) == Some(3nat));
        assert(crate::html::digits_value(d, 10) == Some(39nat));
        assert(crate::html::numeric_entity(d, 10) == Some(c));
        lemma_decode_named(e, c, rest);
    } else {
        assert(html_char(c) + rest =~= seq![c] + rest);
        assert((seq![c] + rest).drop_first() =~= rest);
    }
}

/// Decoding the entities of an escaped text gives the text back.
pub proof fn law_decoding_undoes_escaping(s: Seq<char>)
    ensures
        crate::html::decode_entities(html_escaped(s)) == s,
    decreases s.len(),
{
    if s.len() == 0 {
        assert(html_escaped(s) =~= Seq::<char>::empty());
    } else {
        lemma_escaped_front(s);
        lemma_decode_escaped_char(s[0], html_escaped(s.drop_first()));
        law_decoding_undoes_escaping(s.drop_first());
        assert(seq![s[0]] + s.drop_first() =~= s);
    }
}

pub fn html_escape(value: &str) -> (r: String)
    ensures
        r@ == html_escaped(value@),
{
    let mut out: Vec<char> = Vec::new();
    push_html_escaped(&mut out, value);
    assert(out@ =~= html_escaped(value@));
    string_of(&out)
}


// ---------------------------------------------------------------------------
// File names
// ---------------------------------------------------------------------------

/// Unicode control characters (general category Cc), as `char::is_control`.
pub open spec fn is_control_char(c: char) -> bool {
    (c as u32) <= 0x1F || (0x7F <= (c as u32) && (c as u32) <= 0x9F)
}

pub fn is_control(c: char) -> (r: bool)
    ensures
        r == is_control_char(c),
{
    let u = c as u32;
    u <= 0x1F || (0x7F <= u && u <= 0x9F)
}

/// Characters that file systems refuse in names become `_`.
pub open spec fn file_name_char(c: char) -> char {
    if c == '<' || c == '>' || c == ':' || c == '"' || c == '/' || c == '\\' || c == '|' || c
        == '?' || c == '*' || is_control_char(c) {
        '_'
    } else {
        c
    }
}

/// A name usable as a file name: forbidden and control characters replaced,
/// surrounding whitespace trimmed, and `attachment.bin` when nothing is left.
pub open spec fn safe_name(value: Seq<char>) -> Seq<char> {
    let cleaned = trim(Seq::new(value.len(), |i: int| file_name_char(value[i])));
    if cleaned.len() == 0 {
        "attachment.bin"@
    } else {
        cleaned
    }
}

pub fn safe_file_name(value: &str) -> (r: String)
    ensures
        r@ == safe_name(value@),
{
    let v = chars_of(value);
    let mut mapped: Vec<char> = Vec::new();
    let mut i: usize = 0;
    while i < v.len()
        invariant
            0 <= i <= v.len(),
            mapped@ == Seq::new(i as nat, |j: int| file_name_char(v@[j])),
        decreases v.len() - i,
    {
        let c = v[i];
        let m = if c == '<' || c == '>' || c == ':' || c == '"' || c == '/' || c == '\\' || c
            == '|' || c == '?' || c == '*' || is_control(c) {
            '_'
        } else {
            c
        };
        mapped.push(m);
        assert(mapped@ =~= Seq::new((i + 1) as nat, |j: int| file_name_char(v@[j])));
        i = i + 1;
    }
    assert(mapped@ =~= Seq::new(v@.len(), |j: int| file_name_char(v@[j])));
    let cleaned = trim_chars(&mapped);
    if cleaned.len() == 0 {
        string_of(&chars_of("attachment.bin"))
    } else {
        string_of(&cleaned)
    }
}

/// The stem of a file name (`Path::file_stem`): everything before the last
/// `.`, unless that dot starts the name; `attachment` for `.` and `..`,
/// which name no file.
pub open spec fn name_stem(name: Seq<char>) -> Seq<char> {
    if name == "."@ || name == ".."@ {
        "attachment"@
    } else {
        match rfind_char(name, '.') {
            Some(k) => if k == 0 {
                name
            } else {
                name.take(k)
            },
            None => name,
        }
    }
}

/// The extension of a file name with its dot (`Path::extension`), or empty.
pub open spec fn name_extension(name: Seq<char>) -> Seq<char> {
    if name == "."@ || name == ".."@ {
        Seq::empty()
    } else {
        match rfind_char(name, '.') {
            Some(k) => if k == 0 {
                Seq::empty()
            } else {
                seq!['.'] + name.skip(k + 1)
            },
            None => Seq::empty(),
        }
    }
}

/// Splits a file name into its stem and its dotted extension.
pub fn split_file_name(name: &Vec<char>) -> (r: (Vec<char>, Vec<char>))
    ensures
        r.0@ == name_stem(name@),
        r.1@ == name_extension(name@),
{
    if eq_str(name, ".") || eq_str(name, "..") {
        return (chars_of("attachment"), Vec::new());
    }
    proof {
        lemma_rfind_char(name@, '.');
    }
    match rfind_char_exec(name, '.') {
        Some(k) => if k == 0 {
            (subrange(name, 0, name.len()), Vec::new())
        } else {
            assert(rfind_char(name@, '.') == Some(k as int));
            assert(k < name.len());
            let stem = subrange(name, 0, k);
            let mut ext: Vec<char> = Vec::new();
            ext.push('.');
            let rest = subrange(name, k + 1, name.len());
            append_chars(&mut ext, &rest);
            assert(stem@ =~= name@.take(k as int));
            assert(ext@ =~= seq!['.'] + name@.skip(k + 1));
            (stem, ext)
        },
        None => (subrange(name, 0, name.len()), Vec::new()),
    }
}

/// The `counter`-th alternative of a taken bundle name: `stem-counter.ext`.
pub open spec fn bundle_candidate(name: Seq<char>, counter: nat) -> Seq<char> {
    name_stem(name) + "-"@ + decimal(counter) + name_extension(name)
}

/// The first counter from `c` below 1000 whose alternative is not taken.
pub open spec fn first_free_counter(used: Seq<Seq<char>>, name: Seq<char>, c: nat) -> Option<nat>
    decreases 1000 - c,
{
    if c >= 1000 {
        None
    } else if !used.contains(bundle_candidate(name, c)) {
        Some(c)
    } else {
        first_free_counter(used, name, c + 1)
    }
}

/// Where a bundle name lands when its safe form is taken and no counter is
/// free: `stem-<uuid>.ext` for a random identifier `u`.
pub open spec fn bundle_fallback(name: Seq<char>, u: Seq<char>) -> Seq<char> {
    name_stem(name) + "-"@ + u + name_extension(name)
}

fn contains_name(used: &Vec<String>, name: &Vec<char>) -> (r: bool)
    ensures
        r == views_s(used@).contains(name@),
{
    let mut i: usize = 0;
    while i < used.len()
        invariant
            0 <= i <= used.len(),
            forall|k: int| 0 <= k < i ==> views_s(used@)[k] != name@,
        decreases used.len() - i,
    {
        let u = chars_of(used[i].as_str());
        if eq_chars(&u, name) {
            assert(views_s(used@)[i as int] == name@);
            return true;
        }
        i = i + 1;
    }
    false
}

/// A fresh random identifier (`uuid::Uuid::new_v4().to_string()`): 36
/// characters; nothing else is known of it.
#[verifier::external_body]
pub(crate) fn new_uuid() -> (r: String)
    ensures
        r@.len() == 36,
{
    uuid::Uuid::new_v4().to_string()
}

/// A name for a file in a bundle that no earlier file took: the safe form of
/// `value`, else its first free `stem-N.ext` alternative (N from 2 to 999),
/// else `stem-<uuid>.ext`.  The chosen name is recorded in `used_names`.
pub fn unique_bundle_file_name(used_names: &mut Vec<String>, value: &str) -> (r: String)
    ensures
        !views_s(old(used_names)@).contains(safe_name(value@)) ==> r@ == safe_name(value@),
        views_s(old(used_names)@).contains(safe_name(value@)) ==> match first_free_counter(
            views_s(old(used_names)@),
            safe_name(value@),
            2,
        ) {
            Some(c) => r@ == bundle_candidate(safe_name(value@), c),
            None => exists|u: Seq<char>|
                u.len() == 36 && r@ == #[trigger] bundle_fallback(safe_name(value@), u),
        },
        views_s(final(used_names)@) == if views_s(old(used_names)@).contains(r@) {
            views_s(old(used_names)@)
        } else {
            views_s(old(used_names)@).push(r@)
        },
{
    let file_name = safe_file_name(value);
    let fv = chars_of(file_name.as_str());
    if !contains_name(used_names, &fv) {
        let ghost old_u = views_s(used_names@);
        used_names.push(file_name);
        assert(views_s(used_names@) =~= old_u.push(fv@));
        return string_of(&fv);
    }
    let (stem, ext) = split_file_name(&fv);
    let mut counter: u64 = 2;
    while counter < 1000
        invariant
            2 <= counter <= 1000,
            stem@ == name_stem(fv@),
            ext@ == name_extension(fv@),
            fv@ == safe_name(value@),
            views_s(used_names@) == views_s(old(used_names)@),
            views_s(used_names@).contains(fv@),
            first_free_counter(views_s(used_names@), fv@, 2) == first_free_counter(
                views_s(used_names@),
                fv@,
                counter as nat,
            ),
        decreases 1000 - counter,
    {
        let mut candidate = subrange(&stem, 0, stem.len());
        assert(stem@.subrange(0, stem.len() as int) =~= stem@);
        candidate.push('-');
        proof {
            reveal_strlit("-");
        }
        let d = decimal_u64(counter);
        append_chars(&mut candidate, &d);
        append_chars(&mut candidate, &ext);
        assert(candidate@ =~= bundle_candidate(fv@, counter as nat));
        if !contains_name(used_names, &candidate) {
            let ghost old_u = views_s(used_names@);
            let s = string_of(&candidate);
            used_names.push(s);
            assert(views_s(used_names@) =~= old_u.push(candidate@));
            return string_of(&candidate);
        }
        counter = counter + 1;
    }
    let u = new_uuid();
    let mut candidate = subrange(&stem, 0, stem.len());
    assert(stem@.subrange(0, stem.len() as int) =~= stem@);
    candidate.push('-');
    proof {
        reveal_strlit("-");
    }
    append_str(&mut candidate, u.as_str());
    append_chars(&mut candidate, &ext);
    assert(candidate@ =~= bundle_fallback(fv@, u@));
    if !contains_name(used_names, &candidate) {
        let ghost old_u = views_s(used_names@);
        used_names.push(string_of(&candidate));
        assert(views_s(used_names@) =~= old_u.push(candidate@));
    }
    string_of(&candidate)
}

/// `name-stamp.ext`: the safe form of a prefix, a time stamp and an
/// extension without its leading dots.
pub open spec fn stamped_name(prefix: Seq<char>, stamp: Seq<char>, extension: Seq<char>) -> Seq<
    char,
> {
    safe_name(prefix) + "-"@ + stamp + "."@ + strip_leading(extension, '.')
}

pub fn stamped_file_name(prefix: &str, stamp: &str, extension: &str) -> (r: String)
    ensures
        r@ == stamped_name(prefix@, stamp@, extension@),
{
    let p = safe_file_name(prefix);
    let mut out = chars_of(p.as_str());
    out.push('-');
    append_str(&mut out, stamp);
    out.push('.');
    let e = strip_leading_exec(&chars_of(extension), '.');
    append_chars(&mut out, &e);
    proof {
        reveal_strlit("-");
        reveal_strlit(".");
    }
    assert(out@ =~= stamped_name(prefix@, stamp@, extension@));
    string_of(&out)
}

/// An export file name stamped with the current time as
/// `YYYYMMDD-HHMMSS` (a year past 9999 or before 0 is written with its sign).
pub fn timestamped_file_name(prefix: &str, extension: &str) -> (r: String)
    ensures
        exists|stamp: Seq<char>|
            (file_stamp_shape(stamp) || (stamp.len() > 15 && (stamp[0] == '+' || stamp[0] == '-')))
                && r@ == #[trigger] stamped_name(prefix@, stamp, extension@),
{
    let stamp = now_file_stamp(FILE_STAMP_FORMAT);
    stamped_file_name(prefix, stamp.as_str(), extension)
}

/// The files SQLite keeps for a database: the file itself and its `-wal`
/// and `-shm` companions.
pub fn sqlite_file_set(db_path: &str) -> (r: Vec<String>)
    ensures
        views_s(r@) == seq![db_path@, db_path@ + "-wal"@, db_path@ + "-shm"@],
{
    let p = chars_of(db_path);
    let mut wal = chars_of(db_path);
    append_str(&mut wal, "-wal");
    let mut shm = chars_of(db_path);
    append_str(&mut shm, "-shm");
    let r = vec![string_of(&p), string_of(&wal), string_of(&shm)];
    assert(views_s(r@) =~= seq![db_path@, db_path@ + "-wal"@, db_path@ + "-shm"@]);
    r
}


// ---------------------------------------------------------------------------
// HTML mail export
// ---------------------------------------------------------------------------

/// One exported message with the account it belongs to.
#[derive(Debug, Clone)]
pub struct ExportMailMessageRow {
    pub id: i64,
    pub account_id: i64,
    pub account_email: String,
    pub folder: String,
    pub provider_message_id: String,
    pub subject: String,
    pub sender: String,
    pub recipients: String,
    pub cc: String,
    pub received_at: String,
    pub is_read: bool,
    pub body_preview: String,
    pub body: Option<String>,
    pub body_type: String,
    pub attachments: Vec<AttachmentInfo>,
}

/// The style sheet of the export page.
pub const EXPORT_STYLE: &'static str = "body{font-family:Segoe UI,Arial,sans-serif;margin:24px;background:#f8fafc;color:#17202a}h1{font-size:24px;margin:0 0 8px}.summary{color:#64748b;margin-bottom:18px}article{background:#fff;border:1px solid #e2e8f0;border-radius:8px;margin:14px 0;padding:18px}h2{font-size:18px;margin:0 0 10px}.meta{display:grid;grid-template-columns:120px 1fr;gap:6px 12px;color:#64748b;font-size:13px;margin-bottom:14px}.meta strong{color:#17202a}pre{white-space:pre-wrap;line-height:1.55;font-family:inherit}ul{margin:8px 0 0 18px;padding:0}";

/// A labelled value in a message's header block.
#[verifier::opaque]
pub open spec fn meta_pair(label: Seq<char>, value: Seq<char>) -> Seq<char> {
    "<span>"@ + html_escaped(label) + "</span><strong>"@ + html_escaped(value) + "</strong>"@
}

/// The header block of an exported message.
#[verifier::opaque]
pub open spec fn row_meta(row: ExportMailMessageRow) -> Seq<char> {
    meta_pair("Local ID"@, decimal_int(row.id as int)) + meta_pair("Account"@, row.account_email@)
        + meta_pair("Folder"@, row.folder@) + meta_pair("Provider ID"@, row.provider_message_id@)
        + meta_pair("From"@, row.sender@) + meta_pair("To"@, row.recipients@) + meta_pair(
        "Cc"@,
        row.cc@,
    ) + meta_pair("Received"@, row.received_at@) + meta_pair(
        "Status"@,
        if row.is_read {
            "Read"@
        } else {
            "Unread"@
        },
    ) + meta_pair("Body type"@, row.body_type@)
}

/// An attachment as listed: `name (type, N bytes)`.
pub open spec fn attachment_text(a: AttachmentInfo) -> Seq<char> {
    a.name@ + " ("@ + a.content_type@ + ", "@ + decimal_int(a.size as int) + " bytes)"@
}

pub open spec fn attachment_items(atts: Seq<AttachmentInfo>) -> Seq<char>
    decreases atts.len(),
{
    if atts.len() == 0 {
        Seq::empty()
    } else {
        attachment_items(atts.drop_last()) + "<li>"@ + html_escaped(attachment_text(atts.last()))
            + "</li>"@
    }
}

/// The subject shown for a message.
pub open spec fn shown_subject(row: ExportMailMessageRow) -> Seq<char> {
    if row.subject@.len() == 0 {
        "(no subject)"@
    } else {
        row.subject@
    }
}

/// The body shown for a message: the full body, else its preview.
pub open spec fn shown_body(row: ExportMailMessageRow) -> Seq<char> {
    match row.body {
        Some(b) => b@,
        None => row.body_preview@,
    }
}

/// The attachment list of a message, absent when it has none.
pub open spec fn attachment_section(row: ExportMailMessageRow) -> Seq<char> {
    if row.attachments@.len() == 0 {
        Seq::empty()
    } else {
        "<h3>Attachments</h3><ul>"@ + attachment_items(row.attachments@) + "</ul>"@
    }
}

/// One exported message.
pub open spec fn row_article(row: ExportMailMessageRow) -> Seq<char> {
    "<article><h2>"@ + html_escaped(shown_subject(row)) + "</h2><div class=\"meta\">"@ + row_meta(
        row,
    ) + "</div><pre>"@ + html_escaped(shown_body(row)) + "</pre>"@ + attachment_section(row)
        + "</article>"@
}

pub open spec fn rows_html(rows: Seq<ExportMailMessageRow>) -> Seq<char>
    decreases rows.len(),
{
    if rows.len() == 0 {
        Seq::empty()
    } else {
        rows_html(rows.drop_last()) + row_article(rows.last())
    }
}

/// The export page of `rows` under a title, stamped `exported_at`.
pub open spec fn export_document(
    title: Seq<char>,
    rows: Seq<ExportMailMessageRow>,
    exported_at: Seq<char>,
) -> Seq<char> {
    "<!doctype html><html><head><meta charset=\"utf-8\"><title>"@ + html_escaped(title)
        + "</title><style>"@ + EXPORT_STYLE@ + "</style></head><body><h1>"@ + html_escaped(title)
        + "</h1><div class=\"summary\">Exported "@ + decimal(rows.len()) + " message(s) at "@
        + html_escaped(exported_at) + "</div>"@ + rows_html(rows) + "</body></html>"@
}

fn push_meta_pair(out: &mut Vec<char>, label: &str, value: &str)
    ensures
        final(out)@ == old(out)@ + meta_pair(label@, value@),
{
    append_str(out, "<span>");
    push_html_escaped(out, label);
    append_str(out, "</span><strong>");
    push_html_escaped(out, value);
    append_str(out, "</strong>");
    proof {
        reveal(meta_pair);
    }
    assert(out@ =~= old(out)@ + meta_pair(label@, value@));
}

fn push_row_meta(out: &mut Vec<char>, row: &ExportMailMessageRow)
    ensures
        final(out)@ == old(out)@ + row_meta(*row),
{
    let ghost o = out@;
    let id = string_of(&decimal_i64(row.id));
    push_meta_pair(out, "Local ID", id.as_str());
    let ghost m1 = meta_pair("Local ID"@, decimal_int(row.id as int));
    push_meta_pair(out, "Account", row.account_email.as_str());
    let ghost m2 = m1 + meta_pair("Account"@, row.account_email@);
    assert(out@ =~= o + m2);
    push_meta_pair(out, "Folder", row.folder.as_str());
    let ghost m3 = m2 + meta_pair("Folder"@, row.folder@);
    assert(out@ =~= o + m3);
    push_meta_pair(out, "Provider ID", row.provider_message_id.as_str());
    let ghost m4 = m3 + meta_pair("Provider ID"@, row.provider_message_id@);
    assert(out@ =~= o + m4);
    push_meta_pair(out, "From", row.sender.as_str());
    let ghost m5 = m4 + meta_pair("From"@, row.sender@);
    assert(out@ =~= o + m5);
    push_meta_pair(out, "To", row.recipients.as_str());
    let ghost m6 = m5 + meta_pair("To"@, row.recipients@);
    assert(out@ =~= o + m6);
    push_meta_pair(out, "Cc", row.cc.as_str());
    let ghost m7 = m6 + meta_pair("Cc"@, row.cc@);
    assert(out@ =~= o + m7);
    push_meta_pair(out, "Received", row.received_at.as_str());
    let ghost m8 = m7 + meta_pair("Received"@, row.received_at@);
    assert(out@ =~= o + m8);
    let status = if row.is_read {
        "Read"
    } else {
        "Unread"
    };
    push_meta_pair(out, "Status", status);
    let ghost m9 = m8 + meta_pair("Status"@, status@);
    assert(out@ =~= o + m9);
    push_meta_pair(out, "Body type", row.body_type.as_str());
    let ghost m10 = m9 + meta_pair("Body type"@, row.body_type@);
    assert(out@ =~= o + m10);
    proof {
        reveal(row_meta);
    }
    assert(m10 == row_meta(*row));
}

fn push_attachment_items(out: &mut Vec<char>, atts: &Vec<AttachmentInfo>)
    ensures
        final(out)@ == old(out)@ + attachment_items(atts@),
{
    let mut i: usize = 0;
    while i < atts.len()
        invariant
            0 <= i <= atts.len(),
            out@ == old(out)@ + attachment_items(atts@.take(i as int)),
        decreases atts.len() - i,
    {
        let a = &atts[i];
        let ghost t = atts@.take(i + 1);
        assert(t.drop_last() =~= atts@.take(i as int));
        let mut text = chars_of(a.name.as_str());
        append_str(&mut text, " (");
        append_str(&mut text, a.content_type.as_str());
        append_str(&mut text, ", ");
        append_chars(&mut text, &decimal_i64(a.size));
        append_str(&mut text, " bytes)");
        assert(text@ =~= attachment_text(*a));
        let ts = string_of(&text);
        let ghost before = out@;
        append_str(out, "<li>");
        push_html_escaped(out, ts.as_str());
        append_str(out, "</li>");
        assert(out@ =~= before + ("<li>"@ + html_escaped(attachment_text(t.last())) + "</li>"@));
        assert(out@ =~= old(out)@ + attachment_items(t));
        i = i + 1;
    }
    assert(atts@.take(atts.len() as int) =~= atts@);
}

fn push_row_article(out: &mut Vec<char>, row: &ExportMailMessageRow)
    ensures
        final(out)@ == old(out)@ + row_article(*row),
{
    let ghost o = out@;
    append_str(out, "<article><h2>");
    let subject: &str = if row.subject.as_str().unicode_len() == 0 {
        "(no subject)"
    } else {
        row.subject.as_str()
    };
    push_html_escaped(out, subject);
    append_str(out, "</h2><div class=\"meta\">");
    let ghost p1 = "<article><h2>"@ + html_escaped(shown_subject(*row)) + "</h2><div class=\"meta\">"@;
    assert(out@ =~= o + p1);
    push_row_meta(out, row);
    let ghost p2 = p1 + row_meta(*row);
    assert(out@ =~= o + p2);
    append_str(out, "</div><pre>");
    let body: &str = match &row.body {
        Some(b) => b.as_str(),
        None => row.body_preview.as_str(),
    };
    push_html_escaped(out, body);
    append_str(out, "</pre>");
    let ghost p3 = p2 + "</div><pre>"@ + html_escaped(shown_body(*row)) + "</pre>"@;
    assert(out@ =~= o + p3);
    let ghost a2 = out@;
    if row.attachments.len() > 0 {
        append_str(out, "<h3>Attachments</h3><ul>");
        push_attachment_items(out, &row.attachments);
        append_str(out, "</ul>");
    }
    assert(out@ =~= a2 + attachment_section(*row));
    let ghost p4 = p3 + attachment_section(*row);
    assert(out@ =~= o + p4);
    append_str(out, "</article>");
    assert(p4 + "</article>"@ == row_article(*row));
    assert(out@ =~= o + row_article(*row));
}

/// The export page of `rows` stamped with the given export time.
pub fn render_mail_export_html_at(title: &str, rows: &[ExportMailMessageRow], exported_at: &str) -> (r:
    String)
    ensures
        r@ == export_document(title@, rows@, exported_at@),
{
    let mut out: Vec<char> = Vec::new();
    append_str(&mut out, "<!doctype html><html><head><meta charset=\"utf-8\"><title>");
    push_html_escaped(&mut out, title);
    append_str(&mut out, "</title><style>");
    append_str(&mut out, EXPORT_STYLE);
    append_str(&mut out, "</style></head><body><h1>");
    push_html_escaped(&mut out, title);
    append_str(&mut out, "</h1><div class=\"summary\">Exported ");
    append_chars(&mut out, &decimal_u64(rows.len() as u64));
    append_str(&mut out, " message(s) at ");
    push_html_escaped(&mut out, exported_at);
    append_str(&mut out, "</div>");
    let ghost head = out@;
    let mut i: usize = 0;
    while i < rows.len()
        invariant
            0 <= i <= rows.len(),
            out@ == head + rows_html(rows@.take(i as int)),
        decreases rows.len() - i,
    {
        let ghost t = rows@.take(i + 1);
        assert(t.drop_last() =~= rows@.take(i as int));
        push_row_article(&mut out, &rows[i]);
        assert(out@ =~= head + rows_html(t));
        i = i + 1;
    }
    assert(rows@.take(rows.len() as int) =~= rows@);
    append_str(&mut out, "</body></html>");
    assert(out@ =~= export_document(title@, rows@, exported_at@));
    string_of(&out)
}

/// The export page of `rows`, stamped with the current time.
pub fn render_mail_export_html(title: &str, rows: &[ExportMailMessageRow]) -> (r: String)
    ensures
        exists|t: Seq<char>| r@ == #[trigger] export_document(title@, rows@, t),
{
    let now = now_rfc3339();
    render_mail_export_html_at(title, rows, now.as_str())
}


// ---------------------------------------------------------------------------
// Little-endian fields and CRC-32
// ---------------------------------------------------------------------------

/// Two bytes, least significant first.
pub open spec fn le16(v: int) -> Seq<u8> {
    seq![(v % 256) as u8, ((v / 256) % 256) as u8]
}

/// Four bytes, least significant first.
pub open spec fn le32(v: int) -> Seq<u8> {
    seq![
        (v % 256) as u8,
        ((v / 256) % 256) as u8,
        ((v / 65536) % 256) as u8,
        ((v / 16777216) % 256) as u8,
    ]
}

/// Appends a 16-bit value in little-endian order.
pub fn push_u16(target: &mut Vec<u8>, value: u16)
    ensures
        final(target)@ == old(target)@ + le16(value as int),
{
    target.push((value % 256) as u8);
    target.push((value / 256) as u8);
    assert(target@ =~= old(target)@ + le16(value as int));
}

/// Appends a 32-bit value in little-endian order.
pub fn push_u32(target: &mut Vec<u8>, value: u32)
    ensures
        final(target)@ == old(target)@ + le32(value as int),
{
    target.push((value % 256) as u8);
    target.push(((value / 256) % 256) as u8);
    target.push(((value / 65536) % 256) as u8);
    target.push((value / 16777216) as u8);
    assert(target@ =~= old(target)@ + le32(value as int));
}

/// One bit of the reflected CRC-32 division (polynomial 0xEDB88320).
pub open spec fn crc_bit(c: u32) -> u32 {
    if c & 1 == 1 {
        (c >> 1) ^ 0xedb8_8320u32
    } else {
        c >> 1
    }
}

/// `n` bits of the division.
pub open spec fn crc_bits(c: u32, n: nat) -> u32
    decreases n,
{
    if n == 0 {
        c
    } else {
        crc_bits(crc_bit(c), (n - 1) as nat)
    }
}

/// The CRC register after feeding `bytes`, starting from `c`.
pub open spec fn crc_update(c: u32, bytes: Seq<u8>) -> u32
    decreases bytes.len(),
{
    if bytes.len() == 0 {
        c
    } else {
        crc_bits(crc_update(c, bytes.drop_last()) ^ (bytes.last() as u32), 8)
    }
}

/// The CRC-32 checksum (as used by ZIP) of `bytes`.
pub open spec fn crc32_of(bytes: Seq<u8>) -> u32 {
    !crc_update(0xffff_ffffu32, bytes)
}

pub fn crc32(bytes: &[u8]) -> (r: u32)
    ensures
        r == crc32_of(bytes@),
{
    let mut crc: u32 = 0xffff_ffff;
    let mut i: usize = 0;
    while i < bytes.len()
        invariant
            0 <= i <= bytes.len(),
            crc == crc_update(0xffff_ffffu32, bytes@.take(i as int)),
        decreases bytes.len() - i,
    {
        let ghost t = bytes@.take(i + 1);
        assert(t.drop_last() =~= bytes@.take(i as int));
        crc = crc ^ (bytes[i] as u32);
        let ghost start = crc;
        let mut k: u32 = 0;
        while k < 8
            invariant
                0 <= k <= 8,
                crc_bits(start, 8) == crc_bits(crc, (8 - k) as nat),
            decreases 8 - k,
        {
            if crc & 1 == 1 {
                crc = (crc >> 1) ^ 0xedb8_8320u32;
            } else {
                crc = crc >> 1;
            }
            k = k + 1;
        }
        i = i + 1;
    }
    assert(bytes@.take(bytes.len() as int) =~= bytes@);
    !crc
}

// ---------------------------------------------------------------------------
// Stored ZIP bundles
// ---------------------------------------------------------------------------

/// The bytes of each file to bundle: its name in UTF-8 and its content.
pub open spec fn zip_inputs(files: Seq<(String, Vec<u8>)>) -> Seq<(Seq<u8>, Seq<u8>)> {
    Seq::new(files.len(), |i: int| (vstd::utf8::encode_utf8(files[i].0@), files[i].1@))
}

/// A local file header followed by the name and the stored content.
#[verifier::opaque]
pub open spec fn local_entry(name: Seq<u8>, data: Seq<u8>) -> Seq<u8> {
    le32(0x0403_4b50) + le16(20) + le16(0x0800) + le16(0) + le16(0) + le16(33) + le32(
        crc32_of(data) as int,
    ) + le32(data.len() as int) + le32(data.len() as int) + le16(name.len() as int) + le16(0)
        + name + data
}

/// The local entries of all files, in order.
pub open spec fn local_section(files: Seq<(Seq<u8>, Seq<u8>)>) -> Seq<u8>
    decreases files.len(),
{
    if files.len() == 0 {
        Seq::empty()
    } else {
        local_section(files.drop_last()) + local_entry(files.last().0, files.last().1)
    }
}

/// A central directory entry pointing at a local entry at `offset`.
#[verifier::opaque]
pub open spec fn central_entry(name: Seq<u8>, data: Seq<u8>, offset: int) -> Seq<u8> {
    le32(0x0201_4b50) + le16(20) + le16(20) + le16(0x0800) + le16(0) + le16(0) + le16(33) + le32(
        crc32_of(data) as int,
    ) + le32(data.len() as int) + le32(data.len() as int) + le16(name.len() as int) + le16(0)
        + le16(0) + le16(0) + le16(0) + le32(0) + le32(offset) + name
}

/// The central directory entries of the first `k` files.
pub open spec fn central_section(files: Seq<(Seq<u8>, Seq<u8>)>, k: int) -> Seq<u8>
    decreases k,
{
    if k <= 0 {
        Seq::empty()
    } else {
        central_section(files, k - 1) + central_entry(
            files[k - 1].0,
            files[k - 1].1,
            local_section(files.take(k - 1)).len() as int,
        )
    }
}

/// The end of central directory record.
#[verifier::opaque]
pub open spec fn end_record(count: int, central_size: int, central_offset: int) -> Seq<u8> {
    le32(0x0605_4b50) + le16(0) + le16(0) + le16(count) + le16(count) + le32(central_size) + le32(
        central_offset,
    ) + le16(0)
}

/// A stored (uncompressed) ZIP archive of the files.
pub open spec fn zip_bytes(files: Seq<(Seq<u8>, Seq<u8>)>) -> Seq<u8> {
    let local = local_section(files);
    let central = central_section(files, files.len() as int);
    local + central + end_record(files.len() as int, central.len() as int, local.len() as int)
}

/// What makes the `i`-th file impossible to store, if anything.
pub open spec fn file_error(files: Seq<(Seq<u8>, Seq<u8>)>, i: int) -> Option<Seq<char>> {
    if files[i].0.len() > 0xffff {
        Some("zip file name is too long"@)
    } else if files[i].1.len() > 0xffff_ffff {
        Some("attachment is too large for a standard ZIP bundle"@)
    } else if local_section(files.take(i)).len() > 0xffff_ffff {
        Some("zip bundle is too large"@)
    } else {
        None
    }
}

/// The first problem among the first `k` files.
pub open spec fn first_file_error(files: Seq<(Seq<u8>, Seq<u8>)>, k: int) -> Option<Seq<char>>
    decreases k,
{
    if k <= 0 {
        None
    } else {
        match first_file_error(files, k - 1) {
            Some(e) => Some(e),
            None => file_error(files, k - 1),
        }
    }
}

/// Why the files cannot form a standard ZIP archive, if they cannot.
pub open spec fn zip_error(files: Seq<(Seq<u8>, Seq<u8>)>) -> Option<Seq<char>> {
    if files.len() == 0 {
        Some("zip bundle requires at least one file"@)
    } else if first_file_error(files, files.len() as int) is Some {
        first_file_error(files, files.len() as int)
    } else if local_section(files).len() > 0xffff_ffff {
        Some("zip central directory offset is too large"@)
    } else if central_section(files, files.len() as int).len() > 0xffff_ffff {
        Some("zip central directory is too large"@)
    } else if files.len() > 0xffff {
        Some("zip bundle has too many files"@)
    } else {
        None
    }
}

/// A count that must fit a 16-bit ZIP field.
pub fn zip_u16(value: usize, label: &str) -> (r: AppResult<u16>)
    ensures
        value <= 0xffff ==> (r matches Ok(v) && v == value),
        value > 0xffff ==> (r matches Err(e) && is_invalid_input(e, label@)),
{
    if value <= 0xffff {
        Ok(value as u16)
    } else {
        Err(invalid_input(label))
    }
}

/// A size or offset that must fit a 32-bit ZIP field.
pub fn zip_u32(value: usize, label: &str) -> (r: AppResult<u32>)
    ensures
        value <= 0xffff_ffff ==> (r matches Ok(v) && v == value),
        value > 0xffff_ffff ==> (r matches Err(e) && is_invalid_input(e, label@)),
{
    if value <= 0xffff_ffff {
        Ok(value as u32)
    } else {
        Err(invalid_input(label))
    }
}

fn append_bytes(data: &mut Vec<u8>, bytes: &[u8])
    ensures
        final(data)@ == old(data)@ + bytes@,
{
    let mut i: usize = 0;
    while i < bytes.len()
        invariant
            0 <= i <= bytes.len(),
            data@ == old(data)@ + bytes@.take(i as int),
        decreases bytes.len() - i,
    {
        data.push(bytes[i]);
        assert(bytes@.take(i + 1) =~= bytes@.take(i as int).push(bytes@[i as int]));
        i = i + 1;
    }
    assert(bytes@.take(bytes.len() as int) =~= bytes@);
}

fn push_local_entry(data: &mut Vec<u8>, name: &[u8], bytes: &[u8], crc: u32, size: u32, name_len: u16)
    requires
        crc == crc32_of(bytes@),
        size == bytes@.len(),
        name_len == name@.len(),
    ensures
        final(data)@ == old(data)@ + local_entry(name@, bytes@),
{
    push_u32(data, 0x0403_4b50);
    push_u16(data, 20);
    push_u16(data, 0x0800);
    push_u16(data, 0);
    push_u16(data, 0);
    push_u16(data, 33);
    push_u32(data, crc);
    push_u32(data, size);
    push_u32(data, size);
    push_u16(data, name_len);
    push_u16(data, 0);
    append_bytes(data, name);
    append_bytes(data, bytes);
    proof {
        reveal(local_entry);
    }
    assert(data@ =~= old(data)@ + local_entry(name@, bytes@));
}

fn push_central_entry(
    data: &mut Vec<u8>,
    name: &[u8],
    crc: u32,
    size: u32,
    name_len: u16,
    offset: u32,
    Ghost(content): Ghost<Seq<u8>>,
)
    requires
        crc == crc32_of(content),
        size == content.len(),
        name_len == name@.len(),
    ensures
        final(data)@ == old(data)@ + central_entry(name@, content, offset as int),
{
    push_u32(data, 0x0201_4b50);
    push_u16(data, 20);
    push_u16(data, 20);
    push_u16(data, 0x0800);
    push_u16(data, 0);
    push_u16(data, 0);
    push_u16(data, 33);
    push_u32(data, crc);
    push_u32(data, size);
    push_u32(data, size);
    push_u16(data, name_len);
    push_u16(data, 0);
    push_u16(data, 0);
    push_u16(data, 0);
    push_u16(data, 0);
    push_u32(data, 0);
    push_u32(data, offset);
    append_bytes(data, name);
    proof {
        reveal(central_entry);
    }
    assert(data@ =~= old(data)@ + central_entry(name@, content, offset as int));
}

fn push_end_record(data: &mut Vec<u8>, count: u16, central_size: u32, central_offset: u32)
    ensures
        final(data)@ == old(data)@ + end_record(
            count as int,
            central_size as int,
            central_offset as int,
        ),
{
    push_u32(data, 0x0605_4b50);
    push_u16(data, 0);
    push_u16(data, 0);
    push_u16(data, count);
    push_u16(data, count);
    push_u32(data, central_size);
    push_u32(data, central_offset);
    push_u16(data, 0);
    proof {
        reveal(end_record);
    }
    assert(data@ =~= old(data)@ + end_record(
        count as int,
        central_size as int,
        central_offset as int,
    ));
}

/// What the central directory needs to know of a stored file.
struct ZipCentralEntry {
    name: Vec<u8>,
    crc32: u32,
    size: u32,
    local_header_offset: u32,
}

/// The bytes of a stored ZIP archive holding `files` (name and content), or
/// the reason it cannot be written in the standard format.
pub fn zip_bundle_bytes(files: &[(String, Vec<u8>)]) -> (r: AppResult<Vec<u8>>)
    ensures
        zip_error(zip_inputs(files@)) is None ==> (r matches Ok(v) && v@ == zip_bytes(
            zip_inputs(files@),
        )),
        zip_error(zip_inputs(files@)) matches Some(m) ==> (r matches Err(e) && is_invalid_input(
            e,
            m,
        )),
{
    let ghost fs = zip_inputs(files@);
    if files.len() == 0 {
        return Err(invalid_input("zip bundle requires at least one file"));
    }
    let mut data: Vec<u8> = Vec::new();
    let mut central_entries: Vec<ZipCentralEntry> = Vec::new();
    let mut i: usize = 0;
    while i < files.len()
        invariant
            0 <= i <= files.len(),
            fs == zip_inputs(files@),
            central_entries.len() == i,
            data@ == local_section(fs.take(i as int)),
            first_file_error(fs, i as int) is None,
            forall|j: int|
                #![trigger central_entries@[j]]
                0 <= j < i ==> {
                    &&& central_entries@[j].name@ == fs[j].0
                    &&& central_entries@[j].crc32 == crc32_of(fs[j].1)
                    &&& central_entries@[j].size == fs[j].1.len()
                    &&& central_entries@[j].local_header_offset == local_section(fs.take(j)).len()
                    &&& fs[j].0.len() <= 0xffff
                },
        decreases files.len() - i,
    {
        let name_bytes = files[i].0.as_str().as_bytes();
        let bytes = files[i].1.as_slice();
        assert(name_bytes@ == fs[i as int].0);
        assert(bytes@ == fs[i as int].1);
        let ghost t = fs.take(i + 1);
        assert(t.drop_last() =~= fs.take(i as int));
        let name_len = match zip_u16(name_bytes.len(), "zip file name is too long") {
            Ok(v) => v,
            Err(e) => {
                proof {
                    lemma_first_error_sticks(fs, i as int + 1, fs.len() as int);
                }
                return Err(e);
            },
        };
        let size = match zip_u32(bytes.len(), "attachment is too large for a standard ZIP bundle") {
            Ok(v) => v,
            Err(e) => {
                proof {
                    lemma_first_error_sticks(fs, i as int + 1, fs.len() as int);
                }
                return Err(e);
            },
        };
        let offset = match zip_u32(data.len(), "zip bundle is too large") {
            Ok(v) => v,
            Err(e) => {
                proof {
                    lemma_first_error_sticks(fs, i as int + 1, fs.len() as int);
                }
                return Err(e);
            },
        };
        let crc = crc32(bytes);
        push_local_entry(&mut data, name_bytes, bytes, crc, size, name_len);
        let ghost old_entries = central_entries@;
        central_entries.push(
            ZipCentralEntry {
                name: slice_to_vec(name_bytes),
                crc32: crc,
                size,
                local_header_offset: offset,
            },
        );
        assert(central_entries@ == old_entries.push(central_entries@[i as int]));
        i = i + 1;
    }
    assert(fs.take(files.len() as int) =~= fs);
    let central_offset_usize = data.len();
    let central_offset = match zip_u32(
        central_offset_usize,
        "zip central directory offset is too large",
    ) {
        Ok(v) => v,
        Err(e) => {
            return Err(e);
        },
    };
    let ghost local = data@;
    let mut j: usize = 0;
    while j < central_entries.len()
        invariant
            0 <= j <= central_entries.len() == files.len() == fs.len(),
            fs == zip_inputs(files@),
            local == local_section(fs),
            central_offset_usize == local.len(),
            data@ == local + central_section(fs, j as int),
            forall|k: int|
                #![trigger central_entries@[k]]
                0 <= k < central_entries.len() ==> {
                    &&& central_entries@[k].name@ == fs[k].0
                    &&& central_entries@[k].crc32 == crc32_of(fs[k].1)
                    &&& central_entries@[k].size == fs[k].1.len()
                    &&& central_entries@[k].local_header_offset == local_section(fs.take(k)).len()
                    &&& fs[k].0.len() <= 0xffff
                },
        decreases central_entries.len() - j,
    {
        let entry = &central_entries[j];
        let name_len = entry.name.len() as u16;
        push_central_entry(
            &mut data,
            entry.name.as_slice(),
            entry.crc32,
            entry.size,
            name_len,
            entry.local_header_offset,
            Ghost(fs[j as int].1),
        );
        j = j + 1;
    }
    let central_len = data.len() - central_offset_usize;
    assert(data@.len() == local.len() + central_section(fs, fs.len() as int).len());
    let central_size = match zip_u32(central_len, "zip central directory is too large") {
        Ok(v) => v,
        Err(e) => {
            return Err(e);
        },
    };
    let entry_count = match zip_u16(central_entries.len(), "zip bundle has too many files") {
        Ok(v) => v,
        Err(e) => {
            return Err(e);
        },
    };
    push_end_record(&mut data, entry_count, central_size, central_offset);
    assert(data@ =~= zip_bytes(fs));
    Ok(data)
}

/// Once some file has a problem, the first problem stays the same.
pub proof fn lemma_first_error_sticks(files: Seq<(Seq<u8>, Seq<u8>)>, k: int, n: int)
    requires
        0 <= k <= n,
        first_file_error(files, k) is Some,
    ensures
        first_file_error(files, n) == first_file_error(files, k),
    decreases n - k,
{
    if k < n {
        lemma_first_error_sticks(files, k, n - 1);
    }
}

// ---------------------------------------------------------------------------
// Account exports
// ---------------------------------------------------------------------------

/// Whether an account goes into an export: it must be in the group and
/// among the accounts asked for, where either is given.
pub open spec fn account_selected(account: Account, input: ExportAccountsInput) -> bool {
    &&& (input.group_id matches Some(g) ==> account.group_id == Some(g))
    &&& (input.account_ids matches Some(ids) ==> ids@.contains(account.id))
}

pub fn account_in_export(account: &Account, input: &ExportAccountsInput) -> (r: bool)
    ensures
        r == account_selected(*account, *input),
{
    let in_group = match input.group_id {
        Some(g) => match account.group_id {
            Some(a) => a == g,
            None => false,
        },
        None => true,
    };
    if !in_group {
        return false;
    }
    match &input.account_ids {
        Some(ids) => {
            let mut i: usize = 0;
            while i < ids.len()
                invariant
                    0 <= i <= ids.len(),
                    forall|j: int| 0 <= j < i ==> ids@[j] != account.id,
                    input.group_id matches Some(g) ==> account.group_id == Some(g),
                    input.account_ids == Some(*ids),
                decreases ids.len() - i,
            {
                if ids[i] == account.id {
                    assert(ids@[i as int] == account.id);
                    return true;
                }
                i = i + 1;
            }
            false
        },
        None => true,
    }
}

pub open spec fn accounts_header() -> Seq<Seq<char>> {
    seq![
        "id"@,
        "email"@,
        "aliases"@,
        "group"@,
        "remark"@,
        "status"@,
        "provider"@,
        "account_type"@,
        "proxy_url"@,
        "fallback_proxy_url_1"@,
        "fallback_proxy_url_2"@,
        "message_count"@,
        "last_refresh_status"@,
        "created_at"@,
        "updated_at"@,
    ]
}

/// The fields of one account in the accounts export.
pub open spec fn account_fields(a: Account) -> Seq<Seq<char>> {
    seq![
        decimal_int(a.id as int),
        a.email@,
        join(views_s(a.aliases@), "; "@),
        text_or_empty(a.group_name),
        a.remark@,
        a.status@,
        a.provider@,
        a.account_type@,
        a.proxy_url@,
        a.fallback_proxy_url_1@,
        a.fallback_proxy_url_2@,
        decimal_int(a.message_count as int),
        a.last_refresh_status@,
        a.created_at@,
        a.updated_at@,
    ]
}

/// The accounts export: the header line, then one line per account.
pub open spec fn accounts_csv_text(accounts: Seq<Account>) -> Seq<char>
    decreases accounts.len(),
{
    if accounts.len() == 0 {
        csv_line(accounts_header())
    } else {
        accounts_csv_text(accounts.drop_last()) + csv_line(account_fields(accounts.last()))
    }
}

fn literal_fields(names: &[&str]) -> (r: Vec<Vec<char>>)
    ensures
        views(r@) == field_views(names@),
{
    let mut parts: Vec<Vec<char>> = Vec::new();
    let mut i: usize = 0;
    while i < names.len()
        invariant
            0 <= i <= names.len(),
            parts.len() == i,
            views(parts@) =~= field_views(names@).take(i as int),
        decreases names.len() - i,
    {
        parts.push(chars_of(names[i]));
        assert(views(parts@) =~= field_views(names@).take(i + 1));
        i = i + 1;
    }
    assert(field_views(names@).take(names.len() as int) =~= field_views(names@));
    parts
}

fn strings_chars(v: &Vec<String>) -> (r: Vec<Vec<char>>)
    ensures
        views(r@) == views_s(v@),
{
    let mut parts: Vec<Vec<char>> = Vec::new();
    let mut i: usize = 0;
    while i < v.len()
        invariant
            0 <= i <= v.len(),
            parts.len() == i,
            views(parts@) =~= views_s(v@).take(i as int),
        decreases v.len() - i,
    {
        parts.push(chars_of(v[i].as_str()));
        assert(views(parts@) =~= views_s(v@).take(i + 1));
        i = i + 1;
    }
    assert(views_s(v@).take(v.len() as int) =~= views_s(v@));
    parts
}

fn account_row(a: &Account) -> (r: Vec<char>)
    ensures
        r@ == csv_line(account_fields(*a)),
{
    let group = match &a.group_name {
        Some(g) => chars_of(g.as_str()),
        None => Vec::new(),
    };
    let fields: Vec<Vec<char>> = vec![
        decimal_i64(a.id),
        chars_of(a.email.as_str()),
        join_exec(&strings_chars(&a.aliases), &chars_of("; ")),
        group,
        chars_of(a.remark.as_str()),
        chars_of(a.status.as_str()),
        chars_of(a.provider.as_str()),
        chars_of(a.account_type.as_str()),
        chars_of(a.proxy_url.as_str()),
        chars_of(a.fallback_proxy_url_1.as_str()),
        chars_of(a.fallback_proxy_url_2.as_str()),
        decimal_i64(a.message_count),
        chars_of(a.last_refresh_status.as_str()),
        chars_of(a.created_at.as_str()),
        chars_of(a.updated_at.as_str()),
    ];
    assert(views(fields@) =~= account_fields(*a));
    csv_row_chars(&fields)
}

/// The CSV of an accounts export.
pub fn accounts_csv(accounts: &[Account]) -> (r: String)
    ensures
        r@ == accounts_csv_text(accounts@),
{
    let header = literal_fields(
        &[
            "id",
            "email",
            "aliases",
            "group",
            "remark",
            "status",
            "provider",
            "account_type",
            "proxy_url",
            "fallback_proxy_url_1",
            "fallback_proxy_url_2",
            "message_count",
            "last_refresh_status",
            "created_at",
            "updated_at",
        ],
    );
    assert(views(header@) =~= accounts_header());
    let mut out = csv_row_chars(&header);
    let mut i: usize = 0;
    while i < accounts.len()
        invariant
            0 <= i <= accounts.len(),
            out@ == accounts_csv_text(accounts@.take(i as int)),
        decreases accounts.len() - i,
    {
        assert(accounts@.take(i + 1).drop_last() =~= accounts@.take(i as int));
        let row = account_row(&accounts[i]);
        append_chars(&mut out, &row);
        i = i + 1;
    }
    assert(accounts@.take(accounts.len() as int) =~= accounts@);
    string_of(&out)
}

/// An account with its stored secrets, as the secrets export reads it.
#[derive(Debug, Clone)]
pub struct AccountSecretRow {
    pub id: i64,
    pub email: String,
    pub provider: String,
    pub account_type: String,
    pub remark: String,
    pub imap_host: String,
    pub imap_port: i64,
    pub client_id_enc: String,
    pub refresh_token_enc: String,
}

pub open spec fn secrets_header() -> Seq<Seq<char>> {
    seq![
        "id"@,
        "email"@,
        "provider"@,
        "account_type"@,
        "remark"@,
        "imap_host"@,
        "imap_port"@,
        "client_id"@,
        "refresh_token"@,
    ]
}

pub open spec fn secret_fields(row: AccountSecretRow, client_id: Seq<char>, refresh_token: Seq<
    char,
>) -> Seq<Seq<char>> {
    seq![
        decimal_int(row.id as int),
        row.email@,
        row.provider@,
        row.account_type@,
        row.remark@,
        row.imap_host@,
        decimal_int(row.imap_port as int),
        client_id,
        refresh_token,
    ]
}

/// Decrypting one stored secret: `None` where its nonce has the wrong
/// length, which the cipher does not take.
pub open spec fn secret_outcome(value: Seq<char>, key: Seq<u8>) -> Option<
    Result<Seq<char>, Option<Seq<char>>>,
> {
    if decrypt_nonce_invalid(value) {
        None
    } else {
        Some(decrypt_outcome(value, key))
    }
}

/// The secrets export: the header line, then one line per account with its
/// client id and refresh token decrypted; the first secret that cannot be
/// decrypted, in row order, stops it.
pub open spec fn secrets_csv_text(rows: Seq<AccountSecretRow>, key: Seq<u8>) -> Option<
    Result<Seq<char>, Option<Seq<char>>>,
>
    decreases rows.len(),
{
    if rows.len() == 0 {
        Some(Ok(csv_line(secrets_header())))
    } else {
        match secrets_csv_text(rows.drop_last(), key) {
            Some(Ok(text)) => match secret_outcome(rows.last().client_id_enc@, key) {
                Some(Ok(client_id)) => match secret_outcome(rows.last().refresh_token_enc@, key) {
                    Some(Ok(token)) => Some(
                        Ok(text + csv_line(secret_fields(rows.last(), client_id, token))),
                    ),
                    other => other,
                },
                other => other,
            },
            other => other,
        }
    }
}

/// The CSV of a secrets export; refused when no account matched, `None`
/// where a stored secret has a nonce the cipher does not take.
pub fn account_secrets_csv(rows: &[AccountSecretRow], key: &[u8; 32]) -> (r: Option<
    AppResult<String>,
>)
    ensures
        rows@.len() == 0 ==> (r matches Some(Err(e)) && is_invalid_input(
            e,
            "no matching accounts found"@,
        )),
        rows@.len() > 0 ==> match secrets_csv_text(rows@, key@) {
            None => r is None,
            Some(Ok(t)) => r matches Some(Ok(x)) && x@ == t,
            Some(Err(Some(m))) => r matches Some(Err(AppError::Crypto(x))) && x@ == m,
            Some(Err(None)) => r matches Some(Err(e)) && e is Crypto,
        },
{
    if rows.len() == 0 {
        return Some(Err(invalid_input("no matching accounts found")));
    }
    let header = literal_fields(
        &[
            "id",
            "email",
            "provider",
            "account_type",
            "remark",
            "imap_host",
            "imap_port",
            "client_id",
            "refresh_token",
        ],
    );
    assert(views(header@) =~= secrets_header());
    let mut out = csv_row_chars(&header);
    let mut i: usize = 0;
    while i < rows.len()
        invariant
            0 <= i <= rows.len(),
            secrets_csv_text(rows@.take(i as int), key@) == Some(
                Ok::<Seq<char>, Option<Seq<char>>>(out@),
            ),
        decreases rows.len() - i,
    {
        let ghost t = rows@.take(i + 1);
        assert(t.drop_last() =~= rows@.take(i as int));
        assert(t.last() == rows@[i as int]);
        let row = &rows[i];
        let client_id = match decrypt_text_checked(row.client_id_enc.as_str(), key) {
            Some(Ok(c)) => c,
            other => {
                proof {
                    lemma_secrets_stop_sticks(rows@, key@, i + 1);
                }
                return match other {
                    Some(Err(e)) => Some(Err(e)),
                    _ => None,
                };
            },
        };
        let token = match decrypt_text_checked(row.refresh_token_enc.as_str(), key) {
            Some(Ok(c)) => c,
            other => {
                proof {
                    lemma_secrets_stop_sticks(rows@, key@, i + 1);
                }
                return match other {
                    Some(Err(e)) => Some(Err(e)),
                    _ => None,
                };
            },
        };
        let fields: Vec<Vec<char>> = vec![
            decimal_i64(row.id),
            chars_of(row.email.as_str()),
            chars_of(row.provider.as_str()),
            chars_of(row.account_type.as_str()),
            chars_of(row.remark.as_str()),
            chars_of(row.imap_host.as_str()),
            decimal_i64(row.imap_port),
            chars_of(client_id.as_str()),
            chars_of(token.as_str()),
        ];
        assert(views(fields@) =~= secret_fields(*row, client_id@, token@));
        let line = csv_row_chars(&fields);
        append_chars(&mut out, &line);
        i = i + 1;
    }
    assert(rows@.take(rows.len() as int) =~= rows@);
    Some(Ok(string_of(&out)))
}

/// Once the first `n` rows stop the export, it stops there.
proof fn lemma_secrets_stop_sticks(rows: Seq<AccountSecretRow>, key: Seq<u8>, n: int)
    requires
        0 <= n <= rows.len(),
        !(secrets_csv_text(rows.take(n), key) matches Some(Ok(_))),
    ensures
        secrets_csv_text(rows, key) == secrets_csv_text(rows.take(n), key),
    decreases rows.len() - n,
{
    if n < rows.len() {
        assert(rows.take(n + 1).drop_last() =~= rows.take(n));
        lemma_secrets_stop_sticks(rows, key, n + 1);
    } else {
        assert(rows.take(n) =~= rows);
    }
}

} // verus!
