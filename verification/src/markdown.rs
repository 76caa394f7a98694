//! The Markdown library: names and limits of categories and documents, the
//! files they are read from and written to, and the folder layout of an
//! export.
use crate::error::{internal_error, invalid_input, is_internal, is_invalid_input, AppResult};
use crate::export::is_control_char;
use crate::providers::views_s;
use crate::tree::{contains_id, in_subtree, subtree_ids, TreeNode};
use crate::text::{
    append_str, chars_of, eq_str, or_empty, string_of, to_ascii_lower, trim, trim_chars, trim_str,
    utf8_byte_len, utf8_len_seq,
};
use vstd::prelude::*;

verus! {

broadcast use vstd::string::group_string_axioms;

/// A folder of the Markdown library.
#[derive(Debug, Clone)]
pub struct MarkdownCategory {
    pub id: i64,
    pub name: String,
    pub parent_id: Option<i64>,
}

/// The largest Markdown document kept, in bytes (25 MiB).
pub const MAX_MARKDOWN_BYTES: usize = 26214400;

/// The largest rendered export written, in bytes (50 MiB).
pub const MAX_MARKDOWN_EXPORT_BYTES: usize = 52428800;

// ---------------------------------------------------------------------------
// Names
// ---------------------------------------------------------------------------

/// Characters that cannot appear in exported file names become `-`.
pub open spec fn markdown_name_char(c: char) -> char {
    if c == '<' || c == '>' || c == ':' || c == '"' || c == '/' || c == '\\' || c == '|' || c
        == '?' || c == '*' || is_control_char(c) {
        '-'
    } else {
        c
    }
}

/// `s` without trailing dots and spaces.
pub open spec fn strip_dots_spaces(s: Seq<char>) -> Seq<char>
    decreases s.len(),
{
    if s.len() > 0 && (s.last() == '.' || s.last() == ' ') {
        strip_dots_spaces(s.drop_last())
    } else {
        s
    }
}

/// A document or folder name as a file name: trimmed, forbidden characters
/// replaced, trailing dots and spaces dropped, trimmed again; `document`
/// when nothing is left.
pub open spec fn markdown_file_name(value: Seq<char>) -> Seq<char> {
    let t = trim(value);
    let mapped = Seq::new(t.len(), |i: int| markdown_name_char(t[i]));
    let cleaned = trim(strip_dots_spaces(mapped));
    if cleaned.len() == 0 {
        "document"@
    } else {
        cleaned
    }
}

fn strip_dots_spaces_exec(v: &Vec<char>) -> (r: Vec<char>)
    ensures
        r@ == strip_dots_spaces(v@),
{
    let mut j: usize = v.len();
    assert(v@.take(v.len() as int) =~= v@);
    while j > 0 && (v[j - 1] == '.' || v[j - 1] == ' ')
        invariant
            0 <= j <= v.len(),
            strip_dots_spaces(v@) == strip_dots_spaces(v@.take(j as int)),
        decreases j,
    {
        assert(v@.take(j as int).drop_last() =~= v@.take(j - 1));
        j = j - 1;
    }
    let r = crate::text::subrange(v, 0, j);
    assert(r@ =~= v@.take(j as int));
    r
}

pub fn safe_markdown_file_name(value: &str) -> (r: String)
    ensures
        r@ == markdown_file_name(value@),
{
    let t = trim_str(value);
    let mut mapped: Vec<char> = Vec::new();
    let mut i: usize = 0;
    while i < t.len()
        invariant
            0 <= i <= t.len(),
            mapped@ == Seq::new(i as nat, |j: int| markdown_name_char(t@[j])),
        decreases t.len() - i,
    {
        let c = t[i];
        let m = if c == '<' || c == '>' || c == ':' || c == '"' || c == '/' || c == '\\' || c
            == '|' || c == '?' || c == '*' || crate::export::is_control(c) {
            '-'
        } else {
            c
        };
        mapped.push(m);
        assert(mapped@ =~= Seq::new((i + 1) as nat, |j: int| markdown_name_char(t@[j])));
        i = i + 1;
    }
    assert(mapped@ =~= Seq::new(t@.len(), |j: int| markdown_name_char(t@[j])));
    let cleaned = trim_chars(&strip_dots_spaces_exec(&mapped));
    if cleaned.len() == 0 {
        string_of(&chars_of("document"))
    } else {
        string_of(&cleaned)
    }
}

/// A trimmed, non-blank name of at most `max` characters, or the refusal.
pub open spec fn bounded_name(
    value: Seq<char>,
    max: nat,
    missing: Seq<char>,
    too_long: Seq<char>,
) -> Result<Seq<char>, Seq<char>> {
    let v = trim(value);
    if v.len() == 0 {
        Err(missing)
    } else if v.len() > max {
        Err(too_long)
    } else {
        Ok(v)
    }
}

pub fn validate_markdown_category_name(value: &str) -> (r: AppResult<String>)
    ensures
        match bounded_name(
            value@,
            80,
            "markdown category name is required"@,
            "markdown category name is too long"@,
        ) {
            Ok(v) => r matches Ok(x) && x@ == v,
            Err(m) => r matches Err(e) && is_invalid_input(e, m),
        },
{
    let v = trim_str(value);
    if v.len() == 0 {
        return Err(invalid_input("markdown category name is required"));
    }
    if v.len() > 80 {
        return Err(invalid_input("markdown category name is too long"));
    }
    Ok(string_of(&v))
}

pub fn validate_markdown_title(value: &str) -> (r: AppResult<String>)
    ensures
        match bounded_name(
            value@,
            200,
            "markdown document title is required"@,
            "markdown document title is too long"@,
        ) {
            Ok(v) => r matches Ok(x) && x@ == v,
            Err(m) => r matches Err(e) && is_invalid_input(e, m),
        },
{
    let v = trim_str(value);
    if v.len() == 0 {
        return Err(invalid_input("markdown document title is required"));
    }
    if v.len() > 200 {
        return Err(invalid_input("markdown document title is too long"));
    }
    Ok(string_of(&v))
}

/// Document contents up to 25 MiB of UTF-8 are kept as they are.
pub fn validate_markdown_content(value: String) -> (r: AppResult<String>)
    ensures
        utf8_len_seq(value@) <= MAX_MARKDOWN_BYTES ==> (r matches Ok(x) && x@ == value@),
        utf8_len_seq(value@) > MAX_MARKDOWN_BYTES ==> (r matches Err(e) && is_invalid_input(
            e,
            "markdown document exceeds the 25 MB limit"@,
        )),
{
    let n = utf8_byte_len(&chars_of(value.as_str()));
    if n > MAX_MARKDOWN_BYTES as u128 {
        return Err(invalid_input("markdown document exceeds the 25 MB limit"));
    }
    Ok(value)
}

/// A stored source path: trimmed, and absent when blank.
pub open spec fn source_path(value: Option<Seq<char>>) -> Option<Seq<char>> {
    match value {
        Some(p) => if trim(p).len() == 0 {
            None
        } else {
            Some(trim(p))
        },
        None => None,
    }
}

pub fn normalize_markdown_source_path(value: Option<String>) -> (r: Option<String>)
    ensures
        crate::text::opt_chars(r) == source_path(crate::text::opt_chars(value)),
{
    match value {
        Some(path) => {
            let t = trim_str(path.as_str());
            if t.len() == 0 {
                None
            } else {
                Some(string_of(&t))
            }
        },
        None => None,
    }
}

// ---------------------------------------------------------------------------
// Files
// ---------------------------------------------------------------------------

/// The last component of a path as `std::path::Path::file_name` finds it on
/// this platform; nothing is stated of it.
#[verifier::external_body]
pub(crate) fn path_file_name(path: &str) -> (r: Option<String>) {
    std::path::Path::new(path).file_name().and_then(|value| value.to_str()).map(
        |value| value.to_string(),
    )
}

/// The extension of a path as `std::path::Path::extension` finds it on this
/// platform; nothing is stated of it.
#[verifier::external_body]
pub(crate) fn path_extension(path: &str) -> (r: Option<String>) {
    std::path::Path::new(path).extension().and_then(|value| value.to_str()).map(
        |value| value.to_string(),
    )
}

/// Whether a Markdown file may be read or written, given what the platform
/// makes of its path: the path must not be blank, must name a file, and
/// its extension must be `md` or `markdown` (ignoring ASCII case).
pub open spec fn markdown_path_verdict(
    value: Seq<char>,
    has_file_name: bool,
    extension: Option<Seq<char>>,
) -> Result<(), Seq<char>> {
    let ext = crate::text::lower(or_empty(extension));
    if trim(value).len() == 0 || !has_file_name {
        Err("markdown file path is required"@)
    } else if ext != "md"@ && ext != "markdown"@ {
        Err("only .md and .markdown files are supported"@)
    } else {
        Ok(())
    }
}

/// The verdict on a path whose file name and extension are known.
pub fn check_markdown_file_path(value: &str, has_file_name: bool, extension: Option<String>) -> (r:
    AppResult<()>)
    ensures
        match markdown_path_verdict(value@, has_file_name, crate::text::opt_chars(extension)) {
            Ok(()) => r is Ok,
            Err(m) => r matches Err(e) && is_invalid_input(e, m),
        },
{
    if trim_str(value).len() == 0 || !has_file_name {
        return Err(invalid_input("markdown file path is required"));
    }
    let ghost ev = crate::text::opt_chars(extension);
    let ext = match extension {
        Some(e) => to_ascii_lower(&chars_of(e.as_str())),
        None => Vec::new(),
    };
    assert(ext@ =~= crate::text::lower(or_empty(ev)));
    if !eq_str(&ext, "md") && !eq_str(&ext, "markdown") {
        return Err(invalid_input("only .md and .markdown files are supported"));
    }
    Ok(())
}

/// Checks that a path names a Markdown file.
pub fn validate_markdown_file_path(value: &str) -> (r: AppResult<()>)
    ensures
        trim(value@).len() == 0 ==> (r matches Err(e) && is_invalid_input(
            e,
            "markdown file path is required"@,
        )),
        exists|has_name: bool, ext: Option<Seq<char>>|
            match #[trigger] markdown_path_verdict(value@, has_name, ext) {
                Ok(()) => r is Ok,
                Err(m) => r matches Err(e) && is_invalid_input(e, m),
            },
{
    let name = path_file_name(value);
    let extension = path_extension(value);
    let ghost has_name = name is Some;
    let ghost ext = crate::text::opt_chars(extension);
    let r = check_markdown_file_path(value, name.is_some(), extension);
    assert(match markdown_path_verdict(value@, has_name, ext) {
        Ok(()) => r is Ok,
        Err(m) => r matches Err(e) && is_invalid_input(e, m),
    });
    r
}

/// Whether a rendered export may be written: the path must name a file, its
/// extension (ignoring ASCII case) must be html, pdf, png, jpg or jpeg, and
/// it may hold at most 50 MiB.
pub open spec fn export_path_verdict(
    has_file_name: bool,
    extension: Option<Seq<char>>,
    size: nat,
) -> Result<(), Seq<char>> {
    let ext = crate::text::lower(or_empty(extension));
    if !has_file_name {
        Err("markdown export path is required"@)
    } else if !(ext == "html"@ || ext == "pdf"@ || ext == "png"@ || ext == "jpg"@ || ext
        == "jpeg"@) {
        Err("markdown export must be HTML, PDF, PNG, or JPEG"@)
    } else if size > MAX_MARKDOWN_EXPORT_BYTES {
        Err("markdown export exceeds the 50 MB limit"@)
    } else {
        Ok(())
    }
}

pub fn check_markdown_export(has_file_name: bool, extension: Option<String>, size: usize) -> (r:
    AppResult<()>)
    ensures
        match export_path_verdict(has_file_name, crate::text::opt_chars(extension), size as nat) {
            Ok(()) => r is Ok,
            Err(m) => r matches Err(e) && is_invalid_input(e, m),
        },
{
    if !has_file_name {
        return Err(invalid_input("markdown export path is required"));
    }
    let ghost ev = crate::text::opt_chars(extension);
    let ext = match extension {
        Some(e) => to_ascii_lower(&chars_of(e.as_str())),
        None => Vec::new(),
    };
    assert(ext@ =~= crate::text::lower(or_empty(ev)));
    if !(eq_str(&ext, "html") || eq_str(&ext, "pdf") || eq_str(&ext, "png") || eq_str(&ext, "jpg")
        || eq_str(&ext, "jpeg")) {
        return Err(invalid_input("markdown export must be HTML, PDF, PNG, or JPEG"));
    }
    if size > MAX_MARKDOWN_EXPORT_BYTES {
        return Err(invalid_input("markdown export exceeds the 50 MB limit"));
    }
    Ok(())
}


// ---------------------------------------------------------------------------
// Folder trees
// ---------------------------------------------------------------------------

/// The folder a list of categories keeps under an id: the last one listed
/// with it (as a map built from the list would).
pub open spec fn category_index(cats: Seq<MarkdownCategory>, id: i64) -> Option<int>
    decreases cats.len(),
{
    if cats.len() == 0 {
        None
    } else if cats.last().id == id {
        Some(cats.len() - 1)
    } else {
        category_index(cats.drop_last(), id)
    }
}

pub proof fn lemma_category_index(cats: Seq<MarkdownCategory>, id: i64)
    ensures
        category_index(cats, id) matches Some(i) ==> 0 <= i < cats.len() && cats[i].id == id
            && forall|j: int| i < j < cats.len() ==> cats[j].id != id,
        category_index(cats, id) is None ==> forall|j: int| 0 <= j < cats.len() ==> cats[j].id != id,
    decreases cats.len(),
{
    if cats.len() > 0 && cats.last().id != id {
        lemma_category_index(cats.drop_last(), id);
        assert forall|j: int| 0 <= j < cats.len() - 1 implies cats[j] == cats.drop_last()[j] by {}
    }
}

fn category_index_exec(cats: &[MarkdownCategory], id: i64) -> (r: Option<usize>)
    ensures
        match category_index(cats@, id) {
            Some(i) => r == Some(i as usize),
            None => r is None,
        },
{
    let mut j: usize = cats.len();
    assert(cats@.take(cats.len() as int) =~= cats@);
    while j > 0
        invariant
            0 <= j <= cats.len(),
            category_index(cats@, id) == category_index(cats@.take(j as int), id),
        decreases j,
    {
        let ghost t = cats@.take(j as int);
        assert(t.drop_last() =~= cats@.take(j - 1));
        if cats[j - 1].id == id {
            return Some(j - 1);
        }
        j = j - 1;
    }
    None
}

/// The walk from a folder up towards the export root, after `k` steps: the
/// folder reached, the file names of the folders left behind (innermost
/// first) and their ids; or why the walk failed.  The walk stops at the
/// root, and fails on a folder seen before, a folder not in the list, or a
/// folder without a parent.
pub open spec fn folder_walk(cats: Seq<MarkdownCategory>, start: i64, root: i64, k: nat) -> Result<
    (i64, Seq<Seq<char>>, Seq<i64>),
    Seq<char>,
>
    decreases k,
{
    if k == 0 {
        Ok((start, Seq::empty(), Seq::empty()))
    } else {
        match folder_walk(cats, start, root, (k - 1) as nat) {
            Err(e) => Err(e),
            Ok((cur, segs, seen)) => if cur == root {
                Ok((cur, segs, seen))
            } else if seen.contains(cur) {
                Err("markdown folder tree contains a cycle"@)
            } else {
                match category_index(cats, cur) {
                    None => Err("markdown folder tree is incomplete"@),
                    Some(i) => match cats[i].parent_id {
                        None => Err("markdown folder is outside the export tree"@),
                        Some(p) => Ok(
                            (p, segs.push(markdown_file_name(cats[i].name@)), seen.push(cur)),
                        ),
                    },
                }
            },
        }
    }
}

/// The path of a folder below the export root, one file name per level
/// (outermost first), or why it has none.  A walk of one step more than
/// there are folders has always stopped (see `lemma_walk_settles`).
pub open spec fn folder_relative_path(cats: Seq<MarkdownCategory>, start: i64, root: i64) -> Result<
    Seq<Seq<char>>,
    Seq<char>,
> {
    match folder_walk(cats, start, root, (cats.len() + 1) as nat) {
        Err(e) => Err(e),
        Ok((_, segs, _)) => Ok(segs.reverse()),
    }
}

/// What a walk that has not stopped looks like after `k` steps.
pub proof fn lemma_walk_shape(cats: Seq<MarkdownCategory>, start: i64, root: i64, k: nat)
    requires
        folder_walk(cats, start, root, k) matches Ok((cur, _, _)) && cur != root,
    ensures
        folder_walk(cats, start, root, k) matches Ok((cur, segs, seen)) && seen.len() == k
            && segs.len() == k && seen.no_duplicates() && !seen.contains(root) && forall|x: i64|
            #[trigger] seen.contains(x) ==> category_index(cats, x) is Some,
    decreases k,
{
    if k > 0 {
        let prev = folder_walk(cats, start, root, (k - 1) as nat);
        if let Ok((c, sg, sn)) = prev {
            if c == root {
                assert(false);
            } else {
                lemma_walk_shape(cats, start, root, (k - 1) as nat);
                let i = category_index(cats, c)->0;
                let s2 = sn.push(c);
                assert forall|x: i64| #[trigger] s2.contains(x) implies category_index(cats, x) is Some by {
                    if x != c {
                        assert(sn.contains(x));
                    }
                }
                assert forall|a: int, b: int| 0 <= a < b < s2.len() implies s2[a] != s2[b] by {
                    if b == s2.len() - 1 {
                        assert(sn.contains(sn[a]));
                    }
                }
                assert(!s2.contains(root)) by {
                    if s2.contains(root) {
                        let j = choose|j: int| 0 <= j < s2.len() && s2[j] == root;
                        if j < sn.len() {
                            assert(sn.contains(root));
                        }
                    }
                }
            }
        }
    }
}

/// Distinct ids that all belong to listed folders are no more than the folders.
pub proof fn lemma_distinct_ids_bound(cats: Seq<MarkdownCategory>, seen: Seq<i64>)
    requires
        seen.no_duplicates(),
        forall|x: i64| #[trigger] seen.contains(x) ==> category_index(cats, x) is Some,
    ensures
        seen.len() <= cats.len(),
{
    let ids = Seq::new(cats.len(), |i: int| cats[i].id);
    assert forall|x: i64| seen.to_set().contains(x) implies ids.to_set().contains(x) by {
        assert(seen.contains(x));
        lemma_category_index(cats, x);
        let i = category_index(cats, x)->0;
        assert(ids[i] == x);
    }
    seen.unique_seq_to_set();
    ids.lemma_cardinality_of_set();
    vstd::set_lib::lemma_len_subset(seen.to_set(), ids.to_set());
}

/// A walk has stopped: it failed or reached the root.
pub open spec fn walk_stopped(w: Result<(i64, Seq<Seq<char>>, Seq<i64>), Seq<char>>, root: i64) -> bool {
    match w {
        Err(_) => true,
        Ok((cur, _, _)) => cur == root,
    }
}

/// Once stopped (at the root or on a failure), a walk stays where it is.
pub proof fn lemma_walk_stays(cats: Seq<MarkdownCategory>, start: i64, root: i64, k: nat, n: nat)
    requires
        k <= n,
        walk_stopped(folder_walk(cats, start, root, k), root),
    ensures
        folder_walk(cats, start, root, n) == folder_walk(cats, start, root, k),
    decreases n - k,
{
    if k < n {
        lemma_walk_stays(cats, start, root, k, (n - 1) as nat);
    }
}

/// A walk stops within one step more than there are folders.
pub proof fn lemma_walk_settles(cats: Seq<MarkdownCategory>, start: i64, root: i64)
    ensures
        walk_stopped(folder_walk(cats, start, root, (cats.len() + 1) as nat), root),
{
    let n = (cats.len() + 1) as nat;
    if folder_walk(cats, start, root, n) matches Ok((cur, _, _)) && cur != root {
        lemma_walk_shape(cats, start, root, n);
        if let Ok((_, _, seen)) = folder_walk(cats, start, root, n) {
            lemma_distinct_ids_bound(cats, seen);
        }
    }
}

/// The folder names on the way from a folder up to the export root,
/// outermost first.
pub fn markdown_category_relative_path(category_id: i64, root_id: i64, categories: &[MarkdownCategory]) -> (r:
    AppResult<Vec<String>>)
    ensures
        match folder_relative_path(categories@, category_id, root_id) {
            Ok(segs) => r matches Ok(v) && views_s(v@) == segs,
            Err(m) => r matches Err(e) && is_internal(e, m),
        },
{
    let ghost cats = categories@;
    let mut current = category_id;
    let mut segments: Vec<String> = Vec::new();
    let mut visited: Vec<i64> = Vec::new();
    assert(views_s(segments@) =~= Seq::<Seq<char>>::empty());
    assert(visited@ =~= Seq::<i64>::empty());
    while current != root_id
        invariant
            cats == categories@,
            folder_walk(cats, category_id, root_id, visited@.len() as nat) == Ok::<
                (i64, Seq<Seq<char>>, Seq<i64>),
                Seq<char>,
            >((current, views_s(segments@), visited@)),
            visited@.len() <= cats.len(),
        decreases cats.len() + 1 - visited@.len(),
    {
        let ghost k = visited@.len() as nat;
        proof {
            lemma_walk_shape(cats, category_id, root_id, k);
        }
        let mut seen = false;
        let mut j: usize = 0;
        while j < visited.len()
            invariant
                0 <= j <= visited.len(),
                seen <==> exists|t: int| 0 <= t < j && visited@[t] == current,
            decreases visited.len() - j,
        {
            if visited[j] == current {
                seen = true;
            }
            j = j + 1;
        }
        if seen {
            proof {
                assert(visited@.contains(current));
                assert(folder_walk(cats, category_id, root_id, k + 1) is Err);
                lemma_walk_stays(cats, category_id, root_id, k + 1, (cats.len() + 1) as nat);
            }
            return Err(internal_error("markdown folder tree contains a cycle"));
        }
        let index = match category_index_exec(categories, current) {
            Some(i) => i,
            None => {
                proof {
                    lemma_walk_stays(cats, category_id, root_id, k + 1, (cats.len() + 1) as nat);
                }
                return Err(internal_error("markdown folder tree is incomplete"));
            },
        };
        proof {
            lemma_category_index(cats, current);
        }
        let parent = match categories[index].parent_id {
            Some(p) => p,
            None => {
                proof {
                    lemma_walk_stays(cats, category_id, root_id, k + 1, (cats.len() + 1) as nat);
                }
                return Err(internal_error("markdown folder is outside the export tree"));
            },
        };
        let name = safe_markdown_file_name(categories[index].name.as_str());
        let ghost old_segs = views_s(segments@);
        let ghost old_v = visited@;
        let ghost old_cur = current;
        assert(category_index(cats, old_cur) is Some);
        segments.push(name);
        visited.push(current);
        assert(visited@ =~= old_v.push(old_cur));
        assert(views_s(segments@) =~= old_segs.push(markdown_file_name(cats[index as int].name@)));
        current = parent;
        proof {
            let s2 = visited@;
            assert(s2.drop_last() =~= old_v);
            assert forall|x: i64| #[trigger] s2.contains(x) implies category_index(cats, x) is Some by {
                if x != old_cur {
                    let t = choose|t: int| 0 <= t < s2.len() && s2[t] == x;
                    assert(t < old_v.len());
                    assert(old_v[t] == x);
                    assert(old_v.contains(x));
                }
            }
            assert forall|a: int, b: int| 0 <= a < b < s2.len() implies s2[a] != s2[b] by {
                if b == s2.len() - 1 {
                    assert(s2.drop_last().contains(s2[a])) by {
                        assert(s2.drop_last()[a] == s2[a]);
                    }
                } else {
                    assert(s2.drop_last()[a] == s2[a]);
                    assert(s2.drop_last()[b] == s2[b]);
                }
            }
            lemma_distinct_ids_bound(cats, s2);
        }
    }
    proof {
        lemma_walk_stays(cats, category_id, root_id, visited@.len() as nat, (cats.len() + 1) as nat);
    }
    let mut out: Vec<String> = Vec::new();
    let mut i: usize = segments.len();
    while i > 0
        invariant
            0 <= i <= segments.len(),
            views_s(out@) == views_s(segments@).skip(i as int).reverse(),
        decreases i,
    {
        let ghost before = views_s(out@);
        let s = string_of(&chars_of(segments[i - 1].as_str()));
        let ghost sv = s@;
        out.push(s);
        assert(views_s(out@) =~= before.push(sv));
        assert(sv == views_s(segments@)[i - 1]);
        assert(views_s(out@) =~= views_s(segments@).skip(i - 1).reverse());
        i = i - 1;
    }
    assert(views_s(segments@).skip(0) =~= views_s(segments@));
    Ok(out)
}


/// The tree shape of the Markdown folders.
pub open spec fn category_nodes(cats: Seq<MarkdownCategory>) -> Seq<TreeNode> {
    Seq::new(cats.len(), |i: int| TreeNode { id: cats[i].id, parent_id: cats[i].parent_id })
}

/// The ids of the folder `root` and of every folder below it, each once.
pub fn markdown_descendant_ids(categories: &[MarkdownCategory], root: i64) -> (r: Vec<i64>)
    ensures
        r@.no_duplicates(),
        forall|x: i64| r@.contains(x) <==> in_subtree(category_nodes(categories@), root, x),
{
    let mut nodes: Vec<TreeNode> = Vec::new();
    let mut i: usize = 0;
    while i < categories.len()
        invariant
            0 <= i <= categories.len(),
            nodes@ =~= category_nodes(categories@).take(i as int),
        decreases categories.len() - i,
    {
        nodes.push(TreeNode { id: categories[i].id, parent_id: categories[i].parent_id });
        i = i + 1;
    }
    assert(category_nodes(categories@).take(categories.len() as int) =~= category_nodes(
        categories@,
    ));
    subtree_ids(nodes.as_slice(), root)
}


/// Walking up from the folder `parent`, found at `depth` below the folder
/// being placed: every folder on the way must exist and must not be the
/// one being placed, and the chain must end within five levels.
pub open spec fn parent_chain(
    cats: Seq<MarkdownCategory>,
    current: Option<i64>,
    parent: i64,
    depth: int,
) -> Result<(), Seq<char>>
    decreases 5 - depth,
{
    match category_index(cats, parent) {
        None => Err("markdown parent folder not found"@),
        Some(i) => if current == Some(parent) {
            Err("markdown folder cannot move under its descendant"@)
        } else {
            match cats[i].parent_id {
                None => Ok(()),
                Some(next) => if depth + 1 >= 5 {
                    Err("markdown folders support at most 5 levels"@)
                } else {
                    parent_chain(cats, current, next, depth + 1)
                },
            }
        },
    }
}

/// Whether a folder (`current`, or a new one) may be placed under `parent`.
pub open spec fn parent_verdict(
    cats: Seq<MarkdownCategory>,
    current: Option<i64>,
    parent: Option<i64>,
) -> Result<(), Seq<char>> {
    match parent {
        None => Ok(()),
        Some(p) => if current == Some(p) {
            Err("markdown folder cannot contain itself"@)
        } else {
            parent_chain(cats, current, p, 1)
        },
    }
}

pub fn validate_markdown_parent(
    categories: &[MarkdownCategory],
    current_id: Option<i64>,
    parent_id: Option<i64>,
) -> (r: AppResult<()>)
    ensures
        match parent_verdict(categories@, current_id, parent_id) {
            Ok(_) => r is Ok,
            Err(m) => r matches Err(e) && is_invalid_input(e, m),
        },
{
    let mut parent = match parent_id {
        None => {
            return Ok(());
        },
        Some(p) => p,
    };
    if current_id == Some(parent) {
        return Err(invalid_input("markdown folder cannot contain itself"));
    }
    let mut depth: i64 = 1;
    loop
        invariant
            1 <= depth < 5,
            parent_verdict(categories@, current_id, parent_id) == parent_chain(
                categories@,
                current_id,
                parent,
                depth as int,
            ),
        decreases 5 - depth,
    {
        let i = match category_index_exec(categories, parent) {
            Some(i) => i,
            None => {
                return Err(invalid_input("markdown parent folder not found"));
            },
        };
        proof {
            lemma_category_index(categories@, parent);
        }
        if current_id == Some(parent) {
            return Err(invalid_input("markdown folder cannot move under its descendant"));
        }
        match categories[i].parent_id {
            None => {
                return Ok(());
            },
            Some(next) => {
                if depth + 1 >= 5 {
                    return Err(invalid_input("markdown folders support at most 5 levels"));
                }
                parent = next;
                depth = depth + 1;
            },
        }
    }
}

// ---------------------------------------------------------------------------
// Folder exports
// ---------------------------------------------------------------------------

/// A document of the Markdown library.
#[derive(Debug, Clone)]
pub struct MarkdownDocument {
    pub id: i64,
    pub category_id: Option<i64>,
    pub title: String,
    pub content: String,
}

/// A document as an export writes it: into which folder (below the export
/// root), under which base name, with which content.
#[derive(Debug, Clone)]
pub struct MarkdownExportFile {
    pub folder: Vec<String>,
    pub base_name: String,
    pub document_id: i64,
    pub content: String,
}

/// What exporting a folder writes: the root folder's name, every folder
/// below it, and every document in them.
#[derive(Debug, Clone)]
pub struct MarkdownExportLayout {
    pub root_name: String,
    pub folders: Vec<Vec<String>>,
    pub files: Vec<MarkdownExportFile>,
}

/// The name of the folder an export starts from.
pub open spec fn export_root_name(cats: Seq<MarkdownCategory>, root: i64) -> Option<Seq<char>> {
    match category_index(cats, root) {
        Some(i) => Some(markdown_file_name(cats[i].name@)),
        None => None,
    }
}

pub fn markdown_export_root(categories: &[MarkdownCategory], category_id: i64) -> (r: AppResult<
    String,
>)
    ensures
        match export_root_name(categories@, category_id) {
            Some(n) => r matches Ok(x) && x@ == n,
            None => r matches Err(e) && is_invalid_input(e, "markdown folder not found"@),
        },
{
    proof {
        lemma_category_index(categories@, category_id);
    }
    match category_index_exec(categories, category_id) {
        Some(i) => Ok(safe_markdown_file_name(categories[i].name.as_str())),
        None => Err(invalid_input("markdown folder not found")),
    }
}

/// The folders created for an export, from the first `k` listed: the path
/// of each kept folder of the subtree, in list order, or the first failure.
pub open spec fn export_folders(cats: Seq<MarkdownCategory>, root: i64, k: int) -> Result<
    Seq<Seq<Seq<char>>>,
    Seq<char>,
>
    decreases k,
{
    if k <= 0 {
        Ok(Seq::empty())
    } else {
        match export_folders(cats, root, k - 1) {
            Err(e) => Err(e),
            Ok(folders) => {
                let c = cats[k - 1];
                if category_index(cats, c.id) == Some(k - 1) && in_subtree(category_nodes(cats), root, c.id) {
                    match folder_relative_path(cats, c.id, root) {
                        Err(e) => Err(e),
                        Ok(p) => Ok(folders.push(p)),
                    }
                } else {
                    Ok(folders)
                }
            },
        }
    }
}

/// An exported document: folder path, base name, id and content.
pub type ExportFileSpec = (Seq<Seq<char>>, Seq<char>, i64, Seq<char>);

/// The documents written for an export, from the first `k` listed: each
/// document filed in a folder of the subtree, in list order, or the first
/// failure.
pub open spec fn export_files(
    cats: Seq<MarkdownCategory>,
    docs: Seq<MarkdownDocument>,
    root: i64,
    k: int,
) -> Result<Seq<ExportFileSpec>, Seq<char>>
    decreases k,
{
    if k <= 0 {
        Ok(Seq::empty())
    } else {
        match export_files(cats, docs, root, k - 1) {
            Err(e) => Err(e),
            Ok(files) => {
                let d = docs[k - 1];
                if d.category_id is Some && in_subtree(category_nodes(cats), root, d.category_id->0) {
                    match folder_relative_path(cats, d.category_id->0, root) {
                        Err(e) => Err(e),
                        Ok(p) => Ok(
                            files.push((p, markdown_file_name(d.title@), d.id, d.content@)),
                        ),
                    }
                } else {
                    Ok(files)
                }
            },
        }
    }
}

pub open spec fn file_view(f: MarkdownExportFile) -> ExportFileSpec {
    (views_s(f.folder@), f.base_name@, f.document_id, f.content@)
}

pub open spec fn folder_views(v: Seq<Vec<String>>) -> Seq<Seq<Seq<char>>> {
    Seq::new(v.len(), |i: int| views_s(v[i]@))
}

pub open spec fn file_views(v: Seq<MarkdownExportFile>) -> Seq<ExportFileSpec> {
    Seq::new(v.len(), |i: int| file_view(v[i]))
}

proof fn lemma_export_folders_err_sticks(cats: Seq<MarkdownCategory>, root: i64, k: int, n: int)
    requires
        0 <= k <= n,
        export_folders(cats, root, k) is Err,
    ensures
        export_folders(cats, root, n) == export_folders(cats, root, k),
    decreases n - k,
{
    if k < n {
        lemma_export_folders_err_sticks(cats, root, k, n - 1);
    }
}

proof fn lemma_export_files_err_sticks(
    cats: Seq<MarkdownCategory>,
    docs: Seq<MarkdownDocument>,
    root: i64,
    k: int,
    n: int,
)
    requires
        0 <= k <= n,
        export_files(cats, docs, root, k) is Err,
    ensures
        export_files(cats, docs, root, n) == export_files(cats, docs, root, k),
    decreases n - k,
{
    if k < n {
        lemma_export_files_err_sticks(cats, docs, root, k, n - 1);
    }
}

/// What exporting the folder `category_id` writes, or why it cannot: the
/// folder must exist and every path below it must lead back to it.
pub fn markdown_export_layout(
    categories: &[MarkdownCategory],
    documents: &[MarkdownDocument],
    category_id: i64,
) -> (r: AppResult<MarkdownExportLayout>)
    ensures
        export_root_name(categories@, category_id) is None ==> (r matches Err(e)
            && is_invalid_input(e, "markdown folder not found"@)),
        export_root_name(categories@, category_id) matches Some(name) ==> match export_folders(
            categories@,
            category_id,
            categories@.len() as int,
        ) {
            Err(m) => r matches Err(e) && is_internal(e, m),
            Ok(folders) => match export_files(
                categories@,
                documents@,
                category_id,
                documents@.len() as int,
            ) {
                Err(m) => r matches Err(e) && is_internal(e, m),
                Ok(files) => r matches Ok(layout) && layout.root_name@ == name && folder_views(
                    layout.folders@,
                ) == folders && file_views(layout.files@) == files,
            },
        },
{
    let ghost cats = categories@;
    let root_name = match markdown_export_root(categories, category_id) {
        Ok(n) => n,
        Err(e) => {
            return Err(e);
        },
    };
    let ids = markdown_descendant_ids(categories, category_id);
    let mut folders: Vec<Vec<String>> = Vec::new();
    let mut i: usize = 0;
    assert(folder_views(folders@) =~= Seq::<Seq<Seq<char>>>::empty());
    while i < categories.len()
        invariant
            cats == categories@,
            0 <= i <= categories.len(),
            export_root_name(cats, category_id) == Some(root_name@),
            forall|x: i64| ids@.contains(x) <==> in_subtree(category_nodes(cats), category_id, x),
            export_folders(cats, category_id, i as int) == Ok::<
                Seq<Seq<Seq<char>>>,
                Seq<char>,
            >(folder_views(folders@)),
        decreases categories.len() - i,
    {
        let c = &categories[i];
        proof {
            lemma_category_index(cats, c.id);
        }
        let found = category_index_exec(categories, c.id);
        let kept = match found {
            Some(k) => k == i,
            None => false,
        };
        assert(kept <==> category_index(cats, c.id) == Some(i as int));
        if kept && contains_id(&ids, c.id) {
            match markdown_category_relative_path(c.id, category_id, categories) {
                Ok(path) => {
                    let ghost before = folder_views(folders@);
                    let ghost pv = views_s(path@);
                    folders.push(path);
                    assert(folder_views(folders@) =~= before.push(pv));
                },
                Err(e) => {
                    proof {
                        lemma_export_folders_err_sticks(
                            cats,
                            category_id,
                            i + 1,
                            cats.len() as int,
                        );
                    }
                    return Err(e);
                },
            }
        }
        i = i + 1;
    }
    let ghost docs = documents@;
    let mut files: Vec<MarkdownExportFile> = Vec::new();
    let mut j: usize = 0;
    assert(file_views(files@) =~= Seq::<ExportFileSpec>::empty());
    while j < documents.len()
        invariant
            cats == categories@,
            docs == documents@,
            0 <= j <= documents.len(),
            export_root_name(cats, category_id) == Some(root_name@),
            export_folders(cats, category_id, cats.len() as int) == Ok::<
                Seq<Seq<Seq<char>>>,
                Seq<char>,
            >(folder_views(folders@)),
            forall|x: i64| ids@.contains(x) <==> in_subtree(category_nodes(cats), category_id, x),
            export_files(cats, docs, category_id, j as int) == Ok::<
                Seq<ExportFileSpec>,
                Seq<char>,
            >(file_views(files@)),
        decreases documents.len() - j,
    {
        let d = &documents[j];
        match d.category_id {
            Some(cid) => {
                if contains_id(&ids, cid) {
                    match markdown_category_relative_path(cid, category_id, categories) {
                        Ok(path) => {
                            let base = safe_markdown_file_name(d.title.as_str());
                            let content = string_of(&chars_of(d.content.as_str()));
                            let f = MarkdownExportFile {
                                folder: path,
                                base_name: base,
                                document_id: d.id,
                                content,
                            };
                            let ghost before = file_views(files@);
                            let ghost fv = file_view(f);
                            files.push(f);
                            assert(file_views(files@) =~= before.push(fv));
                        },
                        Err(e) => {
                            proof {
                                lemma_export_files_err_sticks(
                                    cats,
                                    docs,
                                    category_id,
                                    j + 1,
                                    docs.len() as int,
                                );
                            }
                            return Err(e);
                        },
                    }
                }
            },
            None => {},
        }
        j = j + 1;
    }
    Ok(MarkdownExportLayout { root_name, folders, files })
}

/// The file a document is written to: `base.md`, or `base (id).md` when
/// that name is already taken in its folder.
pub open spec fn document_file_name(base: Seq<char>, id: i64, taken: bool) -> Seq<char> {
    if taken {
        base + " ("@ + crate::text::decimal_int(id as int) + ").md"@
    } else {
        base + ".md"@
    }
}

pub fn markdown_document_file_name(base: &str, id: i64, taken: bool) -> (r: String)
    ensures
        r@ == document_file_name(base@, id, taken),
{
    let mut out = chars_of(base);
    if taken {
        append_str(&mut out, " (");
        crate::text::append_chars(&mut out, &crate::text::decimal_i64(id));
        append_str(&mut out, ").md");
    } else {
        append_str(&mut out, ".md");
    }
    string_of(&out)
}

} // verus!
