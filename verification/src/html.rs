//! Plain-text previews of HTML mail bodies: script and style blocks are
//! dropped, tags become word boundaries, entities are decoded and stray CSS
//! rules are cut out.
use crate::text::{
    append_chars, chars_of, eq_str, find, find_exec, is_ascii_alpha, is_whitespace, is_ws, join,
    lower, string_of, strip_leading, strip_leading_exec, strip_trailing, strip_trailing_exec,
    subrange, to_ascii_lower, trim, trim_chars, utf8_len_exec, utf8_len_seq, views, words_exec,
    words_of,
};
use vstd::prelude::*;

verus! {

broadcast use vstd::string::group_string_axioms;

// ---------------------------------------------------------------------------
// Removing <script> and <style> blocks
// ---------------------------------------------------------------------------

/// The text of `value` from `cursor` on with every block that opens with
/// `open` and closes with `close` (matched in `low`, the lower-cased text)
/// replaced by one space; an unclosed block removes the rest.
pub open spec fn without_blocks_from(
    value: Seq<char>,
    low: Seq<char>,
    open: Seq<char>,
    close: Seq<char>,
    cursor: int,
) -> Seq<char>
    decreases value.len() - cursor,
{
    if cursor < 0 || cursor > value.len() || low.len() != value.len() || close.len() == 0 {
        Seq::empty()
    } else {
        match find(low.skip(cursor), open) {
            None => value.skip(cursor),
            Some(o) => {
                let start = cursor + o;
                match find(low.skip(start), close) {
                    Some(e) => {
                        proof {
                            crate::text::lemma_find(low.skip(cursor), open);
                            crate::text::lemma_find(low.skip(start), close);
                        }
                        value.subrange(cursor, start) + seq![' '] + without_blocks_from(
                            value,
                            low,
                            open,
                            close,
                            start + e + close.len(),
                        )
                    },
                    None => value.subrange(cursor, start),
                }
            },
        }
    }
}

/// `remove_html_block`: `value` without its `<tag ...>...</tag>` blocks.
pub open spec fn without_blocks(value: Seq<char>, tag: Seq<char>) -> Seq<char> {
    without_blocks_from(
        value,
        lower(value),
        seq!['<'] + tag,
        seq!['<', '/'] + tag + seq!['>'],
        0,
    )
}

/// First index of `p` in `v` at or after `from`, relative to `from`.
fn find_after(v: &Vec<char>, from: usize, p: &Vec<char>) -> (r: Option<usize>)
    requires
        from <= v.len(),
    ensures
        r matches Some(k) ==> find(v@.skip(from as int), p@) == Some(k as int),
        r is None ==> find(v@.skip(from as int), p@) is None,
{
    let tail = subrange(v, from, v.len());
    assert(tail@ =~= v@.skip(from as int));
    find_exec(&tail, p)
}

pub fn remove_html_block(value: &str, tag: &str) -> (r: Vec<char>)
    ensures
        r@ == without_blocks(value@, tag@),
{
    let v = chars_of(value);
    let low = to_ascii_lower(&v);
    let mut open: Vec<char> = Vec::new();
    open.push('<');
    append_chars(&mut open, &chars_of(tag));
    let mut close: Vec<char> = Vec::new();
    close.push('<');
    close.push('/');
    append_chars(&mut close, &chars_of(tag));
    close.push('>');
    assert(open@ =~= seq!['<'] + tag@);
    assert(close@ =~= seq!['<', '/'] + tag@ + seq!['>']);
    let mut out: Vec<char> = Vec::new();
    let mut cursor: usize = 0;
    loop
        invariant
            v@ == value@,
            low@ == lower(v@),
            close.len() > 0,
            0 <= cursor <= v.len(),
            without_blocks(value@, tag@) == out@ + without_blocks_from(
                v@,
                low@,
                open@,
                close@,
                cursor as int,
            ),
        decreases v.len() - cursor,
    {
        match find_after(&low, cursor, &open) {
            None => {
                let rest = subrange(&v, cursor, v.len());
                assert(rest@ =~= v@.skip(cursor as int));
                append_chars(&mut out, &rest);
                return out;
            },
            Some(o) => {
                proof {
                    crate::text::lemma_find(low@.skip(cursor as int), open@);
                }
                let start = cursor + o;
                let piece = subrange(&v, cursor, start);
                append_chars(&mut out, &piece);
                match find_after(&low, start, &close) {
                    Some(e) => {
                        proof {
                            crate::text::lemma_find(low@.skip(start as int), close@);
                        }
                        out.push(' ');
                        cursor = start + e + close.len();
                    },
                    None => {
                        return out;
                    },
                }
            },
        }
    }
}

// ---------------------------------------------------------------------------
// Tags
// ---------------------------------------------------------------------------

/// The element name of a tag's inside text (`/p`, `br /`, `!DOCTYPE html`).
pub open spec fn tag_name(tag: Seq<char>) -> Seq<char> {
    let s = strip_leading(strip_leading(trim(tag), '/'), '!');
    let w = words_of(s);
    let first = if w.len() > 0 {
        w[0]
    } else {
        Seq::empty()
    };
    lower(strip_trailing(first, '/'))
}

/// Tags after which the text continues as a new word.
pub open spec fn is_block_tag(name: Seq<char>) -> bool {
    name == "br"@ || name == "p"@ || name == "div"@ || name == "li"@ || name == "tr"@ || name
        == "td"@ || name == "th"@ || name == "table"@ || name == "ul"@ || name == "ol"@ || name
        == "h1"@ || name == "h2"@ || name == "h3"@ || name == "h4"@ || name == "h5"@ || name
        == "h6"@
}

/// What a closed tag contributes to the text: a space for block tags.
pub open spec fn tag_boundary(tag: Seq<char>) -> Seq<char> {
    if is_block_tag(tag_name(tag)) {
        seq![' ']
    } else {
        Seq::empty()
    }
}

pub fn append_html_tag_boundary(tag: &Vec<char>, output: &mut Vec<char>)
    ensures
        final(output)@ == old(output)@ + tag_boundary(tag@),
{
    let t = trim_chars(tag);
    let s1 = strip_leading_exec(&t, '/');
    let s2 = strip_leading_exec(&s1, '!');
    let w = words_exec(&s2);
    let first = if w.len() > 0 {
        subrange(&w[0], 0, w[0].len())
    } else {
        Vec::new()
    };
    proof {
        if w.len() > 0 {
            assert(first@ =~= views(w@)[0]);
        }
    }
    let n = to_ascii_lower(&strip_trailing_exec(&first, '/'));
    assert(n@ == tag_name(tag@));
    if eq_str(&n, "br") || eq_str(&n, "p") || eq_str(&n, "div") || eq_str(&n, "li") || eq_str(
        &n,
        "tr",
    ) || eq_str(&n, "td") || eq_str(&n, "th") || eq_str(&n, "table") || eq_str(&n, "ul")
        || eq_str(&n, "ol") || eq_str(&n, "h1") || eq_str(&n, "h2") || eq_str(&n, "h3")
        || eq_str(&n, "h4") || eq_str(&n, "h5") || eq_str(&n, "h6") {
        output.push(' ');
        assert(output@ =~= old(output)@ + tag_boundary(tag@));
    } else {
        assert(output@ =~= old(output)@ + tag_boundary(tag@));
    }
}

/// State of the tag scanner after reading `s`: the text so far, the inside
/// of the open tag, and whether a tag is open.
pub open spec fn tag_scan(s: Seq<char>) -> (Seq<char>, Seq<char>, bool)
    decreases s.len(),
{
    if s.len() == 0 {
        (Seq::empty(), Seq::empty(), false)
    } else {
        let (out, tag, in_tag) = tag_scan(s.drop_last());
        let c = s.last();
        if in_tag {
            if c == '>' {
                (out + tag_boundary(tag), Seq::empty(), false)
            } else {
                (out, tag.push(c), true)
            }
        } else if c == '<' {
            (out, Seq::empty(), true)
        } else {
            (out.push(c), tag, false)
        }
    }
}

/// The text of `s` with its tags replaced by word boundaries.
pub open spec fn strip_tags(s: Seq<char>) -> Seq<char> {
    tag_scan(s).0
}

pub fn strip_tags_exec(v: &Vec<char>) -> (r: Vec<char>)
    ensures
        r@ == strip_tags(v@),
{
    let mut output: Vec<char> = Vec::new();
    let mut tag: Vec<char> = Vec::new();
    let mut in_tag = false;
    let mut i: usize = 0;
    while i < v.len()
        invariant
            0 <= i <= v.len(),
            tag_scan(v@.take(i as int)) == (output@, tag@, in_tag),
        decreases v.len() - i,
    {
        let c = v[i];
        assert(v@.take(i + 1).drop_last() =~= v@.take(i as int));
        if in_tag {
            if c == '>' {
                append_html_tag_boundary(&tag, &mut output);
                tag = Vec::new();
                in_tag = false;
            } else {
                tag.push(c);
            }
        } else if c == '<' {
            in_tag = true;
            tag = Vec::new();
        } else {
            output.push(c);
        }
        proof {
            let t = v@.take(i + 1);
            assert(t.last() == c);
            assert(tag_scan(t).1 =~= tag@);
            assert(tag_scan(t).0 =~= output@);
        }
        i = i + 1;
    }
    assert(v@.take(v.len() as int) =~= v@);
    output
}

// ---------------------------------------------------------------------------
// Entities
// ---------------------------------------------------------------------------

/// Value of a digit in a radix (10 or 16).
pub open spec fn digit_value(c: char, radix: nat) -> Option<nat> {
    if '0' <= c && c <= '9' {
        Some((c as u32 - '0' as u32) as nat)
    } else if radix == 16 && 'a' <= c && c <= 'f' {
        Some((c as u32 - 'a' as u32 + 10) as nat)
    } else if radix == 16 && 'A' <= c && c <= 'F' {
        Some((c as u32 - 'A' as u32 + 10) as nat)
    } else {
        None
    }
}

/// Value of a digit string, when every character is a digit.
pub open spec fn digits_value(s: Seq<char>, radix: nat) -> Option<nat>
    decreases s.len(),
{
    if s.len() == 0 {
        Some(0)
    } else {
        match (digits_value(s.drop_last(), radix), digit_value(s.last(), radix)) {
            (Some(v), Some(d)) => Some(v * radix + d),
            _ => None,
        }
    }
}

/// `u32::from_str_radix` (and `str::parse::<u32>` for radix 10): an
/// optional `+`, at least one digit, and a value that fits in `u32`.
pub open spec fn parse_u32(s: Seq<char>, radix: nat) -> Option<nat> {
    let body = if s.len() > 0 && s[0] == '+' {
        s.drop_first()
    } else {
        s
    };
    if body.len() == 0 {
        None
    } else {
        match digits_value(body, radix) {
            Some(v) => if v <= u32::MAX {
                Some(v)
            } else {
                None
            },
            None => None,
        }
    }
}

/// The Unicode scalar values (`char::from_u32`).
pub open spec fn is_scalar(u: nat) -> bool {
    u < 0xD800 || (0xE000 <= u && u <= 0x10FFFF)
}

/// Converts a code point to a character (std `char::from_u32`): `None` for
/// surrogates and values past U+10FFFF.
#[verifier::external_body]
fn char_from_u32(u: u32) -> (r: Option<char>)
    ensures
        r matches Some(c) ==> is_scalar(u as nat) && c == (u as nat) as char,
        r is None ==> !is_scalar(u as nat),
{
    char::from_u32(u)
}

/// The character a numeric reference names.
pub open spec fn numeric_entity(digits: Seq<char>, radix: nat) -> Option<char> {
    match parse_u32(digits, radix) {
        Some(v) => if is_scalar(v) {
            Some(v as char)
        } else {
            None
        },
        None => None,
    }
}

/// The character an entity name (between `&` and `;`) stands for.
pub open spec fn entity_char(e: Seq<char>) -> Option<char> {
    if e == "amp"@ {
        Some('&')
    } else if e == "lt"@ {
        Some('<')
    } else if e == "gt"@ {
        Some('>')
    } else if e == "quot"@ {
        Some('"')
    } else if e == "apos"@ {
        Some('\'')
    } else if e == "nbsp"@ {
        Some(' ')
    } else if crate::text::starts_with(e, "#x"@) || crate::text::starts_with(e, "#X"@) {
        numeric_entity(e.skip(2), 16)
    } else if crate::text::starts_with(e, "#"@) {
        numeric_entity(e.skip(1), 10)
    } else {
        None
    }
}

pub(crate) fn parse_u32_exec(v: &Vec<char>, radix: u64) -> (r: Option<u32>)
    requires
        radix == 10 || radix == 16,
    ensures
        r matches Some(x) ==> parse_u32(v@, radix as nat) == Some(x as nat),
        r is None ==> parse_u32(v@, radix as nat) is None,
{
    let start: usize = if v.len() > 0 && v[0] == '+' {
        1
    } else {
        0
    };
    let ghost body = if v@.len() > 0 && v@[0] == '+' {
        v@.drop_first()
    } else {
        v@
    };
    assert(body =~= v@.skip(start as int));
    if start >= v.len() {
        return None;
    }
    let mut acc: u64 = 0;
    let mut i: usize = start;
    while i < v.len()
        invariant
            start <= i <= v.len(),
            radix == 10 || radix == 16,
            body == v@.skip(start as int),
            body == (if v@.len() > 0 && v@[0] == '+' {
                v@.drop_first()
            } else {
                v@
            }),
            body.len() > 0,
            acc <= u32::MAX,
            digits_value(v@.subrange(start as int, i as int), radix as nat) == Some(acc as nat),
        decreases v.len() - i,
    {
        let c = v[i];
        let ghost pre = v@.subrange(start as int, i as int);
        let ghost next = v@.subrange(start as int, i + 1);
        assert(next.drop_last() =~= pre);
        let d: u64 = if '0' <= c && c <= '9' {
            (c as u64) - ('0' as u64)
        } else if radix == 16 && 'a' <= c && c <= 'f' {
            (c as u64) - ('a' as u64) + 10
        } else if radix == 16 && 'A' <= c && c <= 'F' {
            (c as u64) - ('A' as u64) + 10
        } else {
            assert(digit_value(c, radix as nat) is None);
            assert(digits_value(next, radix as nat) is None);
            proof {
                assert(v@.skip(start as int).take(next.len() as int) =~= next);
                lemma_digits_none_extends(v@.skip(start as int), next.len() as int, radix as nat);
            }
            return None;
        };
        assert(digit_value(c, radix as nat) == Some(d as nat));
        assert(acc * radix <= 0xffff_ffff * 16) by (nonlinear_arith)
            requires
                acc <= 0xffff_ffff,
                radix <= 16,
        ;
        let next_acc = acc * radix + d;
        assert(digits_value(next, radix as nat) == Some(next_acc as nat));
        if next_acc > 0xffff_ffff {
            proof {
                assert(v@.skip(start as int).take(next.len() as int) =~= next);
                lemma_digits_monotone(
                    v@.skip(start as int),
                    next.len() as int,
                    radix as nat,
                    u32::MAX as nat,
                );
            }
            return None;
        }
        acc = next_acc;
        i = i + 1;
    }
    assert(v@.subrange(start as int, v.len() as int) =~= body);
    Some(acc as u32)
}

/// A non-digit in a prefix makes the whole string fail.
pub proof fn lemma_digits_none_extends(s: Seq<char>, k: int, radix: nat)
    requires
        0 <= k <= s.len(),
        digits_value(s.take(k), radix) is None,
    ensures
        digits_value(s, radix) is None,
    decreases s.len() - k,
{
    if k < s.len() {
        assert(s.take(k + 1).drop_last() =~= s.take(k));
        lemma_digits_none_extends(s, k + 1, radix);
    } else {
        assert(s.take(k) =~= s);
    }
}

/// A prefix whose value already exceeds `u32::MAX` makes the whole value
/// exceed it (or fail on a non-digit).
pub proof fn lemma_digits_monotone(s: Seq<char>, k: int, radix: nat, bound: nat)
    requires
        0 <= k <= s.len(),
        radix >= 1,
        digits_value(s.take(k), radix) matches Some(v) ==> v > bound,
    ensures
        digits_value(s, radix) matches Some(v) ==> v > bound,
    decreases s.len() - k,
{
    if k < s.len() {
        assert(s.take(k + 1).drop_last() =~= s.take(k));
        if let (Some(v), Some(d)) = (digits_value(s.take(k), radix), digit_value(s[k], radix)) {
            assert(v * radix + d >= v) by (nonlinear_arith)
                requires
                    radix >= 1,
            ;
        }
        lemma_digits_monotone(s, k + 1, radix, bound);
    } else {
        assert(s.take(k) =~= s);
    }
}

fn numeric_entity_exec(digits: &Vec<char>, radix: u64) -> (r: Option<char>)
    requires
        radix == 10 || radix == 16,
    ensures
        r == numeric_entity(digits@, radix as nat),
{
    match parse_u32_exec(digits, radix) {
        Some(u) => {
            let c = char_from_u32(u);
            proof {
                if c is Some {
                    assert(c->0 == (u as nat) as char);
                }
            }
            c
        },
        None => None,
    }
}

pub fn decode_html_entity(entity: &Vec<char>) -> (r: Option<char>)
    ensures
        r == entity_char(entity@),
{
    if eq_str(entity, "amp") {
        Some('&')
    } else if eq_str(entity, "lt") {
        Some('<')
    } else if eq_str(entity, "gt") {
        Some('>')
    } else if eq_str(entity, "quot") {
        Some('"')
    } else if eq_str(entity, "apos") {
        Some('\'')
    } else if eq_str(entity, "nbsp") {
        Some(' ')
    } else if {
        proof {
            reveal_strlit("#x");
            reveal_strlit("#X");
            reveal_strlit("#");
        }
        crate::text::starts_with_str(entity, "#x")
    } || crate::text::starts_with_str(
        entity,
        "#X",
    ) {
        let digits = subrange(entity, 2, entity.len());
        assert(digits@ =~= entity@.skip(2));
        numeric_entity_exec(&digits, 16)
    } else if crate::text::starts_with_str(entity, "#") {
        let digits = subrange(entity, 1, entity.len());
        assert(digits@ =~= entity@.skip(1));
        numeric_entity_exec(&digits, 10)
    } else {
        None
    }
}

/// How the entity scanner ends on `t` (the text after an `&`), reading from
/// `k`: the number of characters consumed and whether a `;` ended it.  The
/// scan stops after a `;`, at the end of the text, or once the collected
/// name exceeds 16 bytes.
pub open spec fn entity_scan(t: Seq<char>, k: int) -> (int, bool)
    decreases t.len() - k,
{
    if k < 0 || k >= t.len() {
        (t.len() as int, false)
    } else if t[k] == ';' {
        (k + 1, true)
    } else if utf8_len_seq(t.take(k + 1)) > 16 {
        (k + 1, false)
    } else {
        entity_scan(t, k + 1)
    }
}

/// The text an `&` followed by `t` decodes to, and what the scan consumed.
pub open spec fn entity_piece(t: Seq<char>) -> (Seq<char>, int) {
    let (n, terminated) = entity_scan(t, 0);
    let name = if terminated {
        t.take(n - 1)
    } else {
        t.take(n)
    };
    let piece = if terminated && entity_char(name) is Some {
        seq![entity_char(name)->0]
    } else if terminated {
        seq!['&'] + name + seq![';']
    } else {
        seq!['&'] + name
    };
    (piece, n)
}

pub proof fn lemma_entity_scan_bounds(t: Seq<char>, k: int)
    requires
        0 <= k,
    ensures
        k <= entity_scan(t, k).0 <= t.len() || (k > t.len() && entity_scan(t, k).0 == t.len()),
        entity_scan(t, k).0 >= 1 || t.len() == 0,
        entity_scan(t, k).1 ==> entity_scan(t, k).0 >= 1,
    decreases t.len() - k,
{
    if k < t.len() && t[k] != ';' && !(utf8_len_seq(t.take(k + 1)) > 16) {
        lemma_entity_scan_bounds(t, k + 1);
    }
}

/// `decode_html_entities` on `s`.
pub open spec fn decode_entities(s: Seq<char>) -> Seq<char>
    decreases s.len(),
{
    if s.len() == 0 {
        Seq::empty()
    } else if s[0] != '&' {
        seq![s[0]] + decode_entities(s.drop_first())
    } else {
        let t = s.drop_first();
        let (piece, n) = entity_piece(t);
        proof {
            lemma_entity_scan_bounds(t, 0);
        }
        piece + decode_entities(t.skip(n))
    }
}

pub fn decode_html_entities(v: &Vec<char>) -> (r: Vec<char>)
    ensures
        r@ == decode_entities(v@),
{
    let mut out: Vec<char> = Vec::new();
    let mut i: usize = 0;
    assert(v@.skip(0) =~= v@);
    while i < v.len()
        invariant
            0 <= i <= v.len(),
            decode_entities(v@) == out@ + decode_entities(v@.skip(i as int)),
        decreases v.len() - i,
    {
        let ghost s = v@.skip(i as int);
        let ch = v[i];
        if ch != '&' {
            out.push(ch);
            assert(s.drop_first() =~= v@.skip(i + 1));
            i = i + 1;
            continue;
        }
        let ghost t = s.drop_first();
        assert(t =~= v@.skip(i + 1));
        // scan the entity name
        let mut entity: Vec<char> = Vec::new();
        let mut bytes: usize = 0;
        let mut terminated = false;
        let mut j: usize = i + 1;
        loop
            invariant_except_break
                i + 1 <= j <= v.len(),
                t == v@.skip(i + 1),
                entity@ == t.take(j - i - 1),
                bytes == utf8_len_seq(entity@),
                bytes <= 16,
                !terminated,
                entity_scan(t, 0) == entity_scan(t, j - i - 1),
            ensures
                i + 1 <= j <= v.len(),
                t == v@.skip(i + 1),
                entity_scan(t, 0) == (j - i - 1, terminated),
                terminated ==> entity@ == t.take(j - i - 2),
                !terminated ==> entity@ == t.take(j - i - 1),
            decreases v.len() - j,
        {
            if j >= v.len() {
                break;
            }
            let next = v[j];
            let ghost k = j - i - 1;
            assert(t[k] == next);
            j = j + 1;
            if next == ';' {
                terminated = true;
                break;
            }
            entity.push(next);
            bytes = bytes + utf8_len_exec(next);
            assert(t.take(k + 1) =~= entity@);
            assert(t.take(k + 1).drop_last() =~= t.take(k));
            if bytes > 16 {
                break;
            }
        }
        let ghost n = (j - i - 1) as int;
        let decoded = if terminated {
            decode_html_entity(&entity)
        } else {
            None
        };
        match decoded {
            Some(d) => {
                out.push(d);
            },
            None => {
                out.push('&');
                append_chars(&mut out, &entity);
                if terminated {
                    out.push(';');
                }
            },
        }
        proof {
            let (piece, m) = entity_piece(t);
            assert(m == n);
            assert(t.skip(n) =~= v@.skip(j as int));
        }
        i = j;
        assert(decode_entities(v@) == out@ + decode_entities(v@.skip(i as int)));
    }
    assert(v@.skip(v.len() as int) =~= Seq::<char>::empty());
    out
}

// ---------------------------------------------------------------------------
// CSS fragments
// ---------------------------------------------------------------------------

/// The text from `cursor` on with each `/* ... */` comment replaced by a
/// space; an unclosed comment removes the rest.
pub open spec fn without_comments_from(v: Seq<char>, cursor: int) -> Seq<char>
    decreases v.len() - cursor,
{
    if cursor < 0 || cursor > v.len() {
        Seq::empty()
    } else {
        match find(v.skip(cursor), seq!['/', '*']) {
            None => v.skip(cursor),
            Some(o) => {
                let start = cursor + o;
                proof {
                    crate::text::lemma_find(v.skip(cursor), seq!['/', '*']);
                }
                if start + 2 > v.len() {
                    v.subrange(cursor, start)
                } else {
                    match find(v.skip(start + 2), seq!['*', '/']) {
                        Some(e) => {
                            proof {
                                crate::text::lemma_find(v.skip(start + 2), seq!['*', '/']);
                            }
                            v.subrange(cursor, start) + seq![' '] + without_comments_from(
                                v,
                                start + 2 + e + 2,
                            )
                        },
                        None => v.subrange(cursor, start),
                    }
                }
            },
        }
    }
}

pub fn remove_css_comments(v: &Vec<char>) -> (r: Vec<char>)
    ensures
        r@ == without_comments_from(v@, 0),
{
    let mut open: Vec<char> = Vec::new();
    open.push('/');
    open.push('*');
    let mut close: Vec<char> = Vec::new();
    close.push('*');
    close.push('/');
    assert(open@ =~= seq!['/', '*']);
    assert(close@ =~= seq!['*', '/']);
    let mut out: Vec<char> = Vec::new();
    let mut cursor: usize = 0;
    loop
        invariant
            open@ == seq!['/', '*'],
            close@ == seq!['*', '/'],
            0 <= cursor <= v.len(),
            without_comments_from(v@, 0) == out@ + without_comments_from(v@, cursor as int),
        decreases v.len() - cursor,
    {
        match find_after(v, cursor, &open) {
            None => {
                let rest = subrange(v, cursor, v.len());
                assert(rest@ =~= v@.skip(cursor as int));
                append_chars(&mut out, &rest);
                return out;
            },
            Some(o) => {
                proof {
                    crate::text::lemma_find(v@.skip(cursor as int), open@);
                }
                let start = cursor + o;
                let piece = subrange(v, cursor, start);
                append_chars(&mut out, &piece);
                match find_after(v, start + 2, &close) {
                    Some(e) => {
                        proof {
                            crate::text::lemma_find(v@.skip(start + 2), close@);
                        }
                        out.push(' ');
                        cursor = start + 2 + e + 2;
                    },
                    None => {
                        return out;
                    },
                }
            },
        }
    }
}

pub open spec fn is_prop_char(c: char) -> bool {
    is_ascii_alpha(c) || c == '-'
}

/// A CSS property name: 3 to 48 ASCII letters or hyphens once leading
/// hyphens and surrounding whitespace are removed.
pub open spec fn css_property_name(value: Seq<char>) -> bool {
    let name = strip_leading(trim(value), '-');
    3 <= name.len() <= 48 && forall|k: int| 0 <= k < name.len() ==> is_prop_char(#[trigger] name[k])
}

pub fn is_css_property_name(value: &Vec<char>) -> (r: bool)
    ensures
        r == css_property_name(value@),
{
    let name = strip_leading_exec(&trim_chars(value), '-');
    if name.len() < 3 || name.len() > 48 {
        return false;
    }
    let mut i: usize = 0;
    while i < name.len()
        invariant
            0 <= i <= name.len(),
            name@ == strip_leading(trim(value@), '-'),
            forall|k: int| 0 <= k < i ==> is_prop_char(#[trigger] name@[k]),
        decreases name.len() - i,
    {
        let c = name[i];
        if !(('A' <= c && c <= 'Z') || ('a' <= c && c <= 'z') || c == '-') {
            assert(!is_prop_char(name@[i as int]));
            assert(!css_property_name(value@)) by {
                let nm = strip_leading(trim(value@), '-');
                assert(nm == name@);
                assert(!is_prop_char(nm[i as int]));
            }
            return false;
        }
        i = i + 1;
    }
    true
}

/// Index just past the last character of `s` that cannot be part of a
/// property name, or 0.
pub open spec fn after_last_non_prop(s: Seq<char>) -> int
    decreases s.len(),
{
    if s.len() == 0 {
        0
    } else if !is_prop_char(s.last()) {
        s.len() as int
    } else {
        after_last_non_prop(s.drop_last())
    }
}

/// Index just past the last whitespace character of `s`, or 0.
pub open spec fn after_last_ws(s: Seq<char>) -> int
    decreases s.len(),
{
    if s.len() == 0 {
        0
    } else if is_ws(s.last()) {
        s.len() as int
    } else {
        after_last_ws(s.drop_last())
    }
}

pub proof fn lemma_after_last_bounds(s: Seq<char>)
    ensures
        0 <= after_last_non_prop(s) <= s.len(),
        0 <= after_last_ws(s) <= s.len(),
    decreases s.len(),
{
    if s.len() > 0 {
        lemma_after_last_bounds(s.drop_last());
    }
}

/// The colon at `i` follows a property name.
pub open spec fn colon_after_property(value: Seq<char>, i: int) -> bool {
    let before = crate::text::trim_end(value.take(i));
    css_property_name(before.skip(after_last_non_prop(before)))
}

/// A `{...}` body that reads as CSS declarations.
pub open spec fn css_declaration_block(value: Seq<char>) -> bool {
    crate::text::contains_seq(value, "!important"@) || crate::text::contains_seq(
        lower(value),
        "url("@,
    ) || exists|i: int| 0 <= i < value.len() && value[i] == ':' && #[trigger] colon_after_property(value, i)
}

fn after_last_not_prop(s: &Vec<char>) -> (r: usize)
    ensures
        r == after_last_non_prop(s@),
{
    let mut j: usize = s.len();
    assert(s@.take(s.len() as int) =~= s@);
    while j > 0
        invariant
            0 <= j <= s.len(),
            after_last_non_prop(s@) == after_last_non_prop(s@.take(j as int)),
        decreases j,
    {
        let c = s[j - 1];
        assert(s@.take(j as int).last() == c);
        assert(s@.take(j as int).drop_last() =~= s@.take(j - 1));
        if !(('A' <= c && c <= 'Z') || ('a' <= c && c <= 'z') || c == '-') {
            return j;
        }
        j = j - 1;
    }
    0
}

fn trim_end_chars(v: &Vec<char>) -> (r: Vec<char>)
    ensures
        r@ == crate::text::trim_end(v@),
{
    let mut j: usize = v.len();
    while j > 0 && is_whitespace(v[j - 1])
        invariant
            0 <= j <= v.len(),
            forall|k: int| j <= k < v.len() ==> is_ws(#[trigger] v@[k]),
        decreases j,
    {
        j = j - 1;
    }
    proof {
        crate::text::lemma_trail_ws(v@, j as int);
    }
    let r = subrange(v, 0, j);
    assert(r@ =~= v@.take(j as int));
    r
}

pub fn looks_like_css_declaration_block(value: &Vec<char>) -> (r: bool)
    ensures
        r == css_declaration_block(value@),
{
    if crate::text::contains_str(value, "!important") || crate::text::contains_str(
        &to_ascii_lower(value),
        "url(",
    ) {
        return true;
    }
    let mut i: usize = 0;
    while i < value.len()
        invariant
            0 <= i <= value.len(),
            forall|k: int|
                0 <= k < i && value@[k] == ':' ==> !#[trigger] colon_after_property(value@, k),
        decreases value.len() - i,
    {
        if value[i] == ':' {
            let before = trim_end_chars(&subrange(value, 0, i));
            assert(value@.subrange(0, i as int) =~= value@.take(i as int));
            let start = after_last_not_prop(&before);
            proof {
                lemma_after_last_bounds(before@);
            }
            let name = subrange(&before, start, before.len());
            assert(name@ =~= before@.skip(start as int));
            if is_css_property_name(&name) {
                assert(colon_after_property(value@, i as int));
                return true;
            }
        }
        i = i + 1;
    }
    false
}

fn after_last_ws_exec(s: &Vec<char>, end: usize) -> (r: usize)
    requires
        end <= s.len(),
    ensures
        r == after_last_ws(s@.take(end as int)),
        r <= end,
{
    let mut j: usize = end;
    assert(s@.take(end as int).take(end as int) =~= s@.take(end as int));
    while j > 0
        invariant
            0 <= j <= end <= s.len(),
            after_last_ws(s@.take(end as int)) == after_last_ws(s@.take(j as int)),
        decreases j,
    {
        let c = s[j - 1];
        assert(s@.take(j as int).last() == c);
        assert(s@.take(j as int).drop_last() =~= s@.take(j - 1));
        if is_whitespace(c) {
            return j;
        }
        j = j - 1;
    }
    0
}

/// `selector_token_start`: start of the whitespace-delimited token that
/// ends at `index`.
pub fn selector_token_start(value: &Vec<char>, index: usize) -> (r: usize)
    requires
        index <= value.len(),
    ensures
        r == after_last_ws(value@.take(index as int)),
        r <= index,
{
    after_last_ws_exec(value, index)
}

pub open spec fn is_token_char(c: char) -> bool {
    crate::text::is_ascii_alnum(c) || c == '-' || c == '_'
}

/// The leading run of identifier characters of `s`.
pub open spec fn leading_token(s: Seq<char>) -> Seq<char>
    decreases s.len(),
{
    if s.len() > 0 && is_token_char(s[0]) {
        seq![s[0]] + leading_token(s.drop_first())
    } else {
        Seq::empty()
    }
}

/// Element names that start a CSS rule in mail bodies.
pub open spec fn is_selector_element(t: Seq<char>) -> bool {
    t == "body"@ || t == "html"@ || t == "a"@ || t == "p"@ || t == "div"@ || t == "span"@ || t
        == "table"@ || t == "td"@ || t == "th"@ || t == "img"@ || t == "font"@ || t == "strong"@
        || t == "em"@ || t == "u"@ || t == "h1"@ || t == "h2"@ || t == "h3"@ || t == "h4"@ || t
        == "h5"@ || t == "h6"@
}

pub open spec fn css_selector_tail(value: Seq<char>) -> bool {
    is_selector_element(leading_token(crate::text::trim_start(value)))
}

pub fn is_css_selector_tail(value: &Vec<char>) -> (r: bool)
    ensures
        r == css_selector_tail(value@),
{
    let mut i: usize = 0;
    while i < value.len() && is_whitespace(value[i])
        invariant
            0 <= i <= value.len(),
            forall|k: int| 0 <= k < i ==> is_ws(#[trigger] value@[k]),
        decreases value.len() - i,
    {
        i = i + 1;
    }
    proof {
        crate::text::lemma_lead_ws(value@, i as int);
    }
    let mut j = i;
    while j < value.len() && crate::text::is_ascii_alphanumeric(value[j]) || (j < value.len() && (
    value[j] == '-' || value[j] == '_'))
        invariant
            i <= j <= value.len(),
            leading_token(value@.skip(i as int)) == value@.subrange(i as int, j as int)
                + leading_token(value@.skip(j as int)),
        decreases value.len() - j,
    {
        let ghost t = value@.skip(j as int);
        assert(t.drop_first() =~= value@.skip(j + 1));
        assert(value@.subrange(i as int, j + 1) =~= value@.subrange(i as int, j as int) + seq![
            value@[j as int],
        ]);
        j = j + 1;
    }
    proof {
        assert(value@.skip(i as int).skip(0) =~= value@.skip(i as int));
    }
    let token = subrange(value, i, j);
    assert(token@ =~= leading_token(crate::text::trim_start(value@)));
    eq_str(&token, "body") || eq_str(&token, "html") || eq_str(&token, "a") || eq_str(&token, "p")
        || eq_str(&token, "div") || eq_str(&token, "span") || eq_str(&token, "table") || eq_str(
        &token,
        "td",
    ) || eq_str(&token, "th") || eq_str(&token, "img") || eq_str(&token, "font") || eq_str(
        &token,
        "strong",
    ) || eq_str(&token, "em") || eq_str(&token, "u") || eq_str(&token, "h1") || eq_str(
        &token,
        "h2",
    ) || eq_str(&token, "h3") || eq_str(&token, "h4") || eq_str(&token, "h5") || eq_str(
        &token,
        "h6",
    )
}

pub open spec fn is_selector_marker(c: char) -> bool {
    c == '@' || c == '.' || c == '#' || c == '*' || c == '['
}

/// Last index of a selector marker character (`@ . # * [`) in `s`.
pub open spec fn last_marker(s: Seq<char>) -> Option<int>
    decreases s.len(),
{
    if s.len() == 0 {
        None
    } else if is_selector_marker(s.last()) {
        Some(s.len() - 1)
    } else {
        last_marker(s.drop_last())
    }
}

pub proof fn lemma_last_marker(s: Seq<char>)
    ensures
        last_marker(s) matches Some(p) ==> 0 <= p < s.len(),
    decreases s.len(),
{
    if s.len() > 0 {
        lemma_last_marker(s.drop_last());
    }
}

/// Where the CSS selector of the rule whose `{` is at `open` begins: at
/// the last selector marker within the 241 characters before the brace
/// (for `[` at the start of its token), else at a trailing element name.
pub open spec fn selector_start(value: Seq<char>, open: int) -> Option<int> {
    let prefix_start = if open >= 241 {
        open - 241
    } else {
        0
    };
    let trimmed = crate::text::trim_end(value.subrange(prefix_start, open));
    if trimmed.len() == 0 {
        None
    } else {
        let low = lower(trimmed);
        match last_marker(low) {
            Some(pos) => {
                let start = prefix_start + pos;
                if low[pos] == '[' {
                    Some(after_last_ws(value.take(start)))
                } else {
                    Some(start)
                }
            },
            None => {
                let tail_start = after_last_ws(trimmed);
                if css_selector_tail(lower(trimmed.skip(tail_start))) {
                    Some(prefix_start + tail_start)
                } else {
                    None
                }
            },
        }
    }
}

fn last_marker_exec(s: &Vec<char>) -> (r: Option<usize>)
    ensures
        r matches Some(p) ==> last_marker(s@) == Some(p as int),
        r is None ==> last_marker(s@) is None,
{
    let mut j: usize = s.len();
    assert(s@.take(s.len() as int) =~= s@);
    while j > 0
        invariant
            0 <= j <= s.len(),
            last_marker(s@) == last_marker(s@.take(j as int)),
        decreases j,
    {
        let c = s[j - 1];
        assert(s@.take(j as int).last() == c);
        assert(s@.take(j as int).drop_last() =~= s@.take(j - 1));
        if c == '@' || c == '.' || c == '#' || c == '*' || c == '[' {
            return Some(j - 1);
        }
        j = j - 1;
    }
    None
}

pub fn css_selector_start(value: &Vec<char>, open: usize) -> (r: Option<usize>)
    requires
        open <= value.len(),
    ensures
        r matches Some(x) ==> selector_start(value@, open as int) == Some(x as int) && x <= open,
        r is None ==> selector_start(value@, open as int) is None,
{
    let prefix_start: usize = if open >= 241 {
        open - 241
    } else {
        0
    };
    let prefix = subrange(value, prefix_start, open);
    let trimmed = trim_end_chars(&prefix);
    proof {
        crate::text::lemma_trail_ws_bound(prefix@);
    }
    if trimmed.len() == 0 {
        return None;
    }
    let low = to_ascii_lower(&trimmed);
    match last_marker_exec(&low) {
        Some(pos) => {
            proof {
                lemma_last_marker(low@);
            }
            let start = prefix_start + pos;
            if low[pos] == '[' {
                let r = selector_token_start(value, start);
                Some(r)
            } else {
                Some(start)
            }
        },
        None => {
            let tail_start = after_last_ws_exec(&trimmed, trimmed.len());
            assert(trimmed@.take(trimmed.len() as int) =~= trimmed@);
            let tail = subrange(&trimmed, tail_start, trimmed.len());
            assert(tail@ =~= trimmed@.skip(tail_start as int));
            if is_css_selector_tail(&to_ascii_lower(&tail)) {
                Some(prefix_start + tail_start)
            } else {
                None
            }
        },
    }
}

/// The first CSS rule at or after `cursor`: its selector start and the end
/// of its body (just past `}`, or the end of the text).
pub open spec fn css_fragment_from(v: Seq<char>, cursor: int) -> Option<(int, int)>
    decreases v.len() - cursor,
{
    if cursor < 0 || cursor > v.len() {
        None
    } else {
        match crate::text::find_char(v.skip(cursor), '{') {
            None => None,
            Some(o) => {
                proof {
                    crate::text::lemma_find_char(v.skip(cursor), '{');
                }
                let open = cursor + o;
                let close = match crate::text::find_char(v.skip(open + 1), '}') {
                    Some(c) => Some(open + 1 + c),
                    None => None,
                };
                let block_end = match close {
                    Some(c) => c,
                    None => v.len() as int,
                };
                let end = match close {
                    Some(c) => c + 1,
                    None => v.len() as int,
                };
                if css_declaration_block(v.subrange(open + 1, block_end)) && selector_start(
                    v,
                    open,
                ) is Some {
                    Some((selector_start(v, open)->0, end))
                } else {
                    match close {
                        None => None,
                        Some(c) => {
                            proof {
                                crate::text::lemma_find_char(v.skip(open + 1), '}');
                            }
                            css_fragment_from(v, c + 1)
                        },
                    }
                }
            },
        }
    }
}

fn find_char_after(v: &Vec<char>, from: usize, c: char) -> (r: Option<usize>)
    requires
        from <= v.len(),
    ensures
        r matches Some(k) ==> crate::text::find_char(v@.skip(from as int), c) == Some(k as int)
            && from + k < v.len(),
        r is None ==> crate::text::find_char(v@.skip(from as int), c) is None,
{
    let tail = subrange(v, from, v.len());
    assert(tail@ =~= v@.skip(from as int));
    proof {
        crate::text::lemma_find_char(tail@, c);
    }
    crate::text::find_char_exec(&tail, c)
}

pub fn find_css_fragment(v: &Vec<char>) -> (r: Option<(usize, usize)>)
    ensures
        r matches Some((s, e)) ==> css_fragment_from(v@, 0) == Some((s as int, e as int)) && s
            <= e <= v.len(),
        r is None ==> css_fragment_from(v@, 0) is None,
{
    let mut cursor: usize = 0;
    loop
        invariant
            0 <= cursor <= v.len(),
            css_fragment_from(v@, 0) == css_fragment_from(v@, cursor as int),
        decreases v.len() - cursor,
    {
        let o = match find_char_after(v, cursor, '{') {
            Some(o) => o,
            None => {
                return None;
            },
        };
        let open = cursor + o;
        let close = match find_char_after(v, open + 1, '}') {
            Some(c) => Some(open + 1 + c),
            None => None,
        };
        let block_end = match close {
            Some(c) => c,
            None => v.len(),
        };
        let block = subrange(v, open + 1, block_end);
        if looks_like_css_declaration_block(&block) {
            if let Some(start) = css_selector_start(v, open) {
                let end = match close {
                    Some(c) => c + 1,
                    None => v.len(),
                };
                return Some((start, end));
            }
        }
        match close {
            None => {
                return None;
            },
            Some(c) => {
                cursor = c + 1;
            },
        }
    }
}

/// Up to `n` rounds of replacing the first CSS rule by a space.
pub open spec fn strip_fragments(text: Seq<char>, n: nat) -> Seq<char>
    decreases n,
{
    if n == 0 {
        text
    } else {
        match css_fragment_from(text, 0) {
            None => text,
            Some((start, end)) => strip_fragments(
                text.take(start) + seq![' '] + text.skip(end),
                (n - 1) as nat,
            ),
        }
    }
}

/// `strip_css_fragments`: comments removed, then at most 16 CSS rules.
pub open spec fn strip_css(value: Seq<char>) -> Seq<char> {
    strip_fragments(without_comments_from(value, 0), 16)
}

pub fn strip_css_fragments(value: &Vec<char>) -> (r: Vec<char>)
    ensures
        r@ == strip_css(value@),
{
    let mut text = remove_css_comments(value);
    let mut round: usize = 0;
    while round < 16
        invariant
            0 <= round <= 16,
            strip_css(value@) == strip_fragments(text@, (16 - round) as nat),
        decreases 16 - round,
    {
        match find_css_fragment(&text) {
            None => {
                return text;
            },
            Some((start, end)) => {
                let mut next = subrange(&text, 0, start);
                next.push(' ');
                let rest = subrange(&text, end, text.len());
                append_chars(&mut next, &rest);
                assert(next@ =~= text@.take(start as int) + seq![' '] + text@.skip(end as int));
                text = next;
            },
        }
        round = round + 1;
    }
    text
}

/// `html_to_plain_text`: the words of an HTML body's visible text.
pub open spec fn plain_text(value: Seq<char>) -> Seq<char> {
    let no_script = without_blocks(value, "script"@);
    let no_style = without_blocks(no_script, "style"@);
    let text = strip_css(decode_entities(strip_tags(no_style)));
    join(words_of(text), seq![' '])
}

pub fn html_to_plain_text(value: &str) -> (r: String)
    ensures
        r@ == plain_text(value@),
{
    let without_script = remove_html_block(value, "script");
    let s1 = string_of(&without_script);
    let without_style = remove_html_block(s1.as_str(), "style");
    let output = strip_tags_exec(&without_style);
    let decoded = decode_html_entities(&output);
    let stripped = strip_css_fragments(&decoded);
    let words = words_exec(&stripped);
    let mut sep: Vec<char> = Vec::new();
    sep.push(' ');
    assert(sep@ =~= seq![' ']);
    string_of(&crate::text::join_exec(&words, &sep))
}

/// A non-breaking space entity decodes to a plain space wherever it
/// stands at the start of what is left to decode.
pub proof fn law_nbsp_decodes_to_space(rest: Seq<char>)
    ensures
        decode_entities("&nbsp;"@ + rest) == seq![' '] + decode_entities(rest),
{
    reveal_strlit("&nbsp;");
    reveal_strlit("nbsp");
    reveal_strlit("amp");
    reveal_strlit("lt");
    reveal_strlit("gt");
    reveal_strlit("quot");
    reveal_strlit("apos");
    let name = "nbsp"@;
    assert(name != "amp"@ && name != "lt"@ && name != "gt"@);
    assert(name != "quot"@ && name != "apos"@) by {
        assert(name[0] != "quot"@[0]);
        assert(name[0] != "apos"@[0]);
    }
    assert(entity_char(name) == Some(' '));
    assert("&nbsp;"@ =~= seq!['&'] + name + seq![';']);
    crate::export::lemma_decode_named(name, ' ', rest);
}

/// Between two words, a non-breaking space entity reads as the space that
/// separates them in the plain text.
pub proof fn law_nbsp_joins_words(a: Seq<char>, rest: Seq<char>)
    requires
        !a.contains('&'),
    ensures
        decode_entities(a + "&nbsp;"@ + rest) == a + seq![' '] + decode_entities(rest),
    decreases a.len(),
{
    if a.len() == 0 {
        assert(a + "&nbsp;"@ + rest =~= "&nbsp;"@ + rest);
        law_nbsp_decodes_to_space(rest);
        assert(a + seq![' '] + decode_entities(rest) =~= seq![' '] + decode_entities(rest));
    } else {
        let s = a + "&nbsp;"@ + rest;
        assert(s[0] == a[0]);
        assert(a[0] != '&');
        assert(s.drop_first() =~= a.drop_first() + "&nbsp;"@ + rest);
        assert forall|i: int| 0 <= i < a.drop_first().len() implies a.drop_first()[i] != '&' by {
            assert(a.drop_first()[i] == a[i + 1]);
        }
        law_nbsp_joins_words(a.drop_first(), rest);
        assert(seq![a[0]] + (a.drop_first() + seq![' '] + decode_entities(rest)) =~= a + seq![' ']
            + decode_entities(rest));
    }
}

} // verus!
