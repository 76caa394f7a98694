//! Workspace key records: the purpose a record is filed under.
use crate::html::{digit_value, digits_value, lemma_digits_monotone, lemma_digits_none_extends};
use crate::providers::views_s;
use crate::text::{
    append_chars, chars_of, decimal, decimal_u64, starts_with, starts_with_exec, string_of,
    subrange, trim, trim_str,
};
use vstd::prelude::*;

verus! {

broadcast use vstd::string::group_string_axioms;

/// The prefix of the purposes given to records filed without one.
pub const DEFAULT_PURPOSE_PREFIX: &'static str = "密钥_";

/// `str::parse::<u64>`: an optional `+`, at least one decimal digit, and a
/// value that fits in `u64`.
pub open spec fn parse_u64_text(s: Seq<char>) -> Option<nat> {
    let body = if s.len() > 0 && s[0] == '+' {
        s.drop_first()
    } else {
        s
    };
    if body.len() == 0 {
        None
    } else {
        match digits_value(body, 10) {
            Some(v) => if v <= u64::MAX {
                Some(v)
            } else {
                None
            },
            None => None,
        }
    }
}

fn parse_u64_exec(v: &Vec<char>) -> (r: Option<u64>)
    ensures
        r matches Some(x) ==> parse_u64_text(v@) == Some(x as nat),
        r is None ==> parse_u64_text(v@) is None,
{
    let start: usize = if v.len() > 0 && v[0] == '+' {
        1
    } else {
        0
    };
    let ghost body = if v@.len() > 0 && v@[0] == '+' {
        v@.drop_first()
    } else {
        v@
    };
    assert(body =~= v@.skip(start as int));
    if start >= v.len() {
        return None;
    }
    let mut acc: u64 = 0;
    let mut i: usize = start;
    while i < v.len()
        invariant
            start <= i <= v.len(),
            body == v@.skip(start as int),
            body == (if v@.len() > 0 && v@[0] == '+' {
                v@.drop_first()
            } else {
                v@
            }),
            body.len() > 0,
            digits_value(v@.subrange(start as int, i as int), 10) == Some(acc as nat),
        decreases v.len() - i,
    {
        let c = v[i];
        let ghost pre = v@.subrange(start as int, i as int);
        let ghost next = v@.subrange(start as int, i + 1);
        assert(next.drop_last() =~= pre);
        if !('0' <= c && c <= '9') {
            assert(digit_value(c, 10) is None);
            assert(digits_value(next, 10) is None);
            proof {
                assert(v@.skip(start as int).take(next.len() as int) =~= next);
                lemma_digits_none_extends(v@.skip(start as int), next.len() as int, 10);
            }
            return None;
        }
        let d: u64 = (c as u64) - ('0' as u64);
        assert(digit_value(c, 10) == Some(d as nat));
        let wide: u128 = (acc as u128) * 10 + (d as u128);
        assert(digits_value(next, 10) == Some(wide as nat));
        if wide > 0xffff_ffff_ffff_ffff {
            proof {
                assert(v@.skip(start as int).take(next.len() as int) =~= next);
                lemma_digits_monotone(
                    v@.skip(start as int),
                    next.len() as int,
                    10,
                    u64::MAX as nat,
                );
            }
            return None;
        }
        acc = wide as u64;
        i = i + 1;
    }
    assert(v@.subrange(start as int, v.len() as int) =~= body);
    Some(acc)
}

/// The number a default purpose carries, or 0 for any other purpose.
pub open spec fn purpose_index(p: Seq<char>) -> nat {
    if starts_with(p, DEFAULT_PURPOSE_PREFIX@) {
        match parse_u64_text(p.skip(DEFAULT_PURPOSE_PREFIX@.len() as int)) {
            Some(v) => v,
            None => 0,
        }
    } else {
        0
    }
}

/// The largest number that the default purposes among `purposes` carry.
pub open spec fn max_purpose_index(purposes: Seq<Seq<char>>) -> nat
    decreases purposes.len(),
{
    if purposes.len() == 0 {
        0
    } else {
        let rest = max_purpose_index(purposes.drop_last());
        let here = purpose_index(purposes.last());
        if here > rest {
            here
        } else {
            rest
        }
    }
}

/// The purpose a new record is filed under when none is given: the prefix
/// and one more than the largest number a default purpose carries, counted
/// in `u64` as a release build counts (so past the largest `u64` it wraps
/// to 0).
pub open spec fn default_purpose(purposes: Seq<Seq<char>>) -> Seq<char> {
    DEFAULT_PURPOSE_PREFIX@ + decimal(((max_purpose_index(purposes) + 1) % 0x1_0000_0000_0000_0000) as nat)
}

/// The purpose of a new record: the requested one without surrounding
/// whitespace, or the next default purpose when that is empty.
pub open spec fn new_record_purpose(requested: Seq<char>, purposes: Seq<Seq<char>>) -> Seq<char> {
    if trim(requested).len() > 0 {
        trim(requested)
    } else {
        default_purpose(purposes)
    }
}

/// The purpose under which a new workspace key record is filed, given the
/// purposes of the records already there.
pub fn workspace_key_purpose(requested: &str, existing: &[String]) -> (r: String)
    ensures
        r@ == new_record_purpose(requested@, views_s(existing@)),
{
    let t = trim_str(requested);
    if t.len() > 0 {
        return string_of(&t);
    }
    let prefix = chars_of(DEFAULT_PURPOSE_PREFIX);
    let mut max: u64 = 0;
    let mut i: usize = 0;
    while i < existing.len()
        invariant
            0 <= i <= existing.len(),
            prefix@ == DEFAULT_PURPOSE_PREFIX@,
            max as nat == max_purpose_index(views_s(existing@).take(i as int)),
        decreases existing.len() - i,
    {
        let ghost ps = views_s(existing@);
        assert(ps.take(i + 1).drop_last() =~= ps.take(i as int));
        assert(ps.take(i + 1).last() == existing@[i as int]@);
        let p = chars_of(existing[i].as_str());
        let mut here: u64 = 0;
        if starts_with_exec(&p, &prefix) {
            let suffix = subrange(&p, prefix.len(), p.len());
            assert(suffix@ =~= p@.skip(DEFAULT_PURPOSE_PREFIX@.len() as int));
            match parse_u64_exec(&suffix) {
                Some(v) => {
                    here = v;
                },
                None => {},
            }
        }
        assert(here as nat == purpose_index(p@));
        if here > max {
            max = here;
        }
        i = i + 1;
    }
    assert(views_s(existing@).take(existing.len() as int) =~= views_s(existing@));
    let next = max.wrapping_add(1);
    assert(next as nat == ((max_purpose_index(views_s(existing@)) + 1) % 0x1_0000_0000_0000_0000) as nat);
    let mut out = prefix;
    append_chars(&mut out, &decimal_u64(next));
    string_of(&out)
}

/// The purpose of a record after an edit: the requested one without
/// surrounding whitespace, or the current one when that is empty.
pub fn renamed_purpose(requested: &str, current: &str) -> (r: String)
    ensures
        r@ == (if trim(requested@).len() > 0 {
            trim(requested@)
        } else {
            current@
        }),
{
    let t = trim_str(requested);
    if t.len() > 0 {
        string_of(&t)
    } else {
        current.to_string()
    }
}

} // verus!
