//! The decisions of an IMAP refresh of one folder, as a state machine that
//! the caller drives: it performs each action on the server and hands back
//! what came of it.  A UID search that fails, or finds nothing in a mailbox
//! that has messages, and a UID fetch that brings back fewer bodies than
//! asked for, fall back to sequence numbers; when the fallback cannot bring
//! the messages either, the refresh fails and the cached mail is kept.
use crate::providers::{
    fetched_imap_uids_cover, is_newest_selection, newest_uids, partition_imap_uids, uids_covered,
    uids_where, views_s,
};
use crate::text::{
    append_chars, append_str, chars_of, decimal, decimal_u64, join, join_exec, string_of, views,
};
use vstd::prelude::*;

verus! {

broadcast use vstd::string::group_string_axioms;

/// The folder a refresh reads: its mailbox name, how many messages the
/// server says it holds, how many of the newest to read, whether its
/// UIDVALIDITY changed since the last refresh, and the ids already cached.
#[derive(Debug, Clone)]
pub struct ImapFolderFetch {
    pub mailbox: String,
    pub exists: u32,
    pub top: usize,
    pub validity_changed: bool,
    pub cached_ids: Option<Vec<String>>,
}

pub struct ImapFolderView {
    pub mailbox: Seq<char>,
    pub exists: u32,
    pub top: usize,
    pub validity_changed: bool,
    pub cached_ids: Option<Seq<Seq<char>>>,
}

impl View for ImapFolderFetch {
    type V = ImapFolderView;

    open spec fn view(&self) -> ImapFolderView {
        ImapFolderView {
            mailbox: self.mailbox@,
            exists: self.exists,
            top: self.top,
            validity_changed: self.validity_changed,
            cached_ids: match self.cached_ids {
                Some(ids) => Some(views_s(ids@)),
                None => None,
            },
        }
    }
}

/// Why the refresh turned to sequence numbers.
#[derive(Debug, Clone, Copy, PartialEq, Eq, Structural)]
pub enum Fallback {
    /// UID SEARCH found nothing in a mailbox that has messages.
    EmptyUidSearch,
    /// UID SEARCH failed.
    UidSearchFailed,
    /// The UID fetch brought back fewer bodies than asked for.
    IncompleteFetch,
}

/// Where the refresh of a folder stands.
#[derive(Debug, Clone)]
pub enum FetchStage {
    /// UID SEARCH was sent.
    Searching,
    /// The bodies of the `fresh` UIDs were asked for; the `known` ones are
    /// cached and only their flags will be read.
    FetchingUids { fresh: Vec<u32>, known: Vec<u32> },
    /// The batch fetch failed with `batch_error`; each UID is fetched alone.
    FetchingEach { fresh: Vec<u32>, known: Vec<u32>, batch_error: String },
    /// The bodies arrived; the flags of the cached messages were asked for.
    FetchingFlags { reset: bool },
    /// SEARCH by sequence number was sent.
    SeqSearching { fallback: Fallback, reason: String },
    /// The messages at the `selected` sequence numbers were asked for.
    SeqFetching { fallback: Fallback, reason: String, selected: Vec<u32> },
    /// Nothing more is to be done.
    Finished,
}

pub enum FetchStageView {
    Searching,
    FetchingUids { fresh: Seq<u32>, known: Seq<u32> },
    FetchingEach { fresh: Seq<u32>, known: Seq<u32>, batch_error: Seq<char> },
    FetchingFlags { reset: bool },
    SeqSearching { fallback: Fallback, reason: Seq<char> },
    SeqFetching { fallback: Fallback, reason: Seq<char>, selected: Seq<u32> },
    Finished,
}

impl View for FetchStage {
    type V = FetchStageView;

    open spec fn view(&self) -> FetchStageView {
        match self {
            FetchStage::Searching => FetchStageView::Searching,
            FetchStage::FetchingUids { fresh, known } => FetchStageView::FetchingUids {
                fresh: fresh@,
                known: known@,
            },
            FetchStage::FetchingEach { fresh, known, batch_error } => FetchStageView::FetchingEach {
                fresh: fresh@,
                known: known@,
                batch_error: batch_error@,
            },
            FetchStage::FetchingFlags { reset } => FetchStageView::FetchingFlags { reset: *reset },
            FetchStage::SeqSearching { fallback, reason } => FetchStageView::SeqSearching {
                fallback: *fallback,
                reason: reason@,
            },
            FetchStage::SeqFetching { fallback, reason, selected } => FetchStageView::SeqFetching {
                fallback: *fallback,
                reason: reason@,
                selected: selected@,
            },
            FetchStage::Finished => FetchStageView::Finished,
        }
    }
}

/// What came of an action.  Fetch results list the ids of the messages
/// whose bodies arrived; a failed UID fetched alone is reported with the
/// error's text.
#[derive(Debug)]
pub enum ImapFetchEvent {
    UidSearched(Result<Vec<u32>, String>),
    UidFetched(Result<Vec<String>, String>),
    EachFetched { got: Vec<String>, failures: Vec<(u32, String)> },
    FlagsFetched(Result<(), String>),
    SeqSearched(Result<Vec<u32>, String>),
    SeqFetched(Result<Vec<String>, String>),
}

pub enum ImapFetchEventView {
    UidSearched(Result<Seq<u32>, Seq<char>>),
    UidFetched(Result<Seq<Seq<char>>, Seq<char>>),
    EachFetched { got: Seq<Seq<char>>, failures: Seq<(u32, Seq<char>)> },
    FlagsFetched(Result<(), Seq<char>>),
    SeqSearched(Result<Seq<u32>, Seq<char>>),
    SeqFetched(Result<Seq<Seq<char>>, Seq<char>>),
}

pub open spec fn uids_result(r: Result<Vec<u32>, String>) -> Result<Seq<u32>, Seq<char>> {
    match r {
        Ok(v) => Ok(v@),
        Err(e) => Err(e@),
    }
}

pub open spec fn ids_result(r: Result<Vec<String>, String>) -> Result<Seq<Seq<char>>, Seq<char>> {
    match r {
        Ok(v) => Ok(views_s(v@)),
        Err(e) => Err(e@),
    }
}

pub open spec fn failure_views(v: Seq<(u32, String)>) -> Seq<(u32, Seq<char>)> {
    v.map_values(|f: (u32, String)| (f.0, f.1@))
}

impl View for ImapFetchEvent {
    type V = ImapFetchEventView;

    open spec fn view(&self) -> ImapFetchEventView {
        match self {
            ImapFetchEvent::UidSearched(r) => ImapFetchEventView::UidSearched(uids_result(*r)),
            ImapFetchEvent::UidFetched(r) => ImapFetchEventView::UidFetched(ids_result(*r)),
            ImapFetchEvent::EachFetched { got, failures } => ImapFetchEventView::EachFetched {
                got: views_s(got@),
                failures: failure_views(failures@),
            },
            ImapFetchEvent::FlagsFetched(r) => ImapFetchEventView::FlagsFetched(
                match r {
                    Ok(()) => Ok(()),
                    Err(e) => Err(e@),
                },
            ),
            ImapFetchEvent::SeqSearched(r) => ImapFetchEventView::SeqSearched(uids_result(*r)),
            ImapFetchEvent::SeqFetched(r) => ImapFetchEventView::SeqFetched(ids_result(*r)),
        }
    }
}

/// Which fetched messages a finished folder contributes.
#[derive(Debug, Clone, Copy, PartialEq, Eq, Structural)]
pub enum Kept {
    Nothing,
    UidBatch,
    SequenceBatch,
}

/// What to do next on the server.
#[derive(Debug, Clone)]
pub enum ImapFetchAction {
    UidSearch,
    UidFetch(Vec<u32>),
    FetchEach(Vec<u32>),
    FetchFlags(Vec<u32>),
    SeqSearch,
    SeqFetch(Vec<u32>),
    /// The refresh fails with this message; the cached mail stays as it is.
    Fail(String),
    /// The folder is done: keep the named batch, and drop the folder's
    /// cached mail first when `reset`.
    Done { kept: Kept, reset: bool },
}

pub enum ImapFetchActionView {
    UidSearch,
    UidFetch(Seq<u32>),
    FetchEach(Seq<u32>),
    FetchFlags(Seq<u32>),
    SeqSearch,
    SeqFetch(Seq<u32>),
    Fail(Seq<char>),
    Done { kept: Kept, reset: bool },
}

impl View for ImapFetchAction {
    type V = ImapFetchActionView;

    open spec fn view(&self) -> ImapFetchActionView {
        match self {
            ImapFetchAction::UidSearch => ImapFetchActionView::UidSearch,
            ImapFetchAction::UidFetch(v) => ImapFetchActionView::UidFetch(v@),
            ImapFetchAction::FetchEach(v) => ImapFetchActionView::FetchEach(v@),
            ImapFetchAction::FetchFlags(v) => ImapFetchActionView::FetchFlags(v@),
            ImapFetchAction::SeqSearch => ImapFetchActionView::SeqSearch,
            ImapFetchAction::SeqFetch(v) => ImapFetchActionView::SeqFetch(v@),
            ImapFetchAction::Fail(m) => ImapFetchActionView::Fail(m@),
            ImapFetchAction::Done { kept, reset } => ImapFetchActionView::Done {
                kept: *kept,
                reset: *reset,
            },
        }
    }
}

// ---------------------------------------------------------------------------
// The transition
// ---------------------------------------------------------------------------

/// "… reports N messages, but …; existing local cache was preserved".
pub open spec fn mailbox_failure(f: ImapFolderView, what: Seq<char>) -> Seq<char> {
    "IMAP mailbox "@ + f.mailbox + " reports "@ + decimal(f.exists as nat) + " messages, but "@ + what
        + "; existing local cache was preserved"@
}

pub open spec fn fetched_of(prefix: Seq<char>, got: nat, wanted: nat) -> Seq<char> {
    prefix + decimal(got) + " of "@ + decimal(wanted) + " requested message bodies"@
}

pub open spec fn failure_line(f: (u32, Seq<char>)) -> Seq<char> {
    decimal(f.0 as nat) + ": "@ + f.1
}

/// After the bodies arrived: read the flags of the cached messages; the
/// folder's cache is dropped when its UIDVALIDITY changed and bodies came.
pub open spec fn after_bodies(f: ImapFolderView, fresh: Seq<u32>, known: Seq<u32>) -> (
    FetchStageView,
    ImapFetchActionView,
) {
    (
        FetchStageView::FetchingFlags { reset: f.validity_changed && fresh.len() > 0 },
        ImapFetchActionView::FetchFlags(known),
    )
}

pub open spec fn to_sequences(fallback: Fallback, reason: Seq<char>) -> (
    FetchStageView,
    ImapFetchActionView,
) {
    (FetchStageView::SeqSearching { fallback, reason }, ImapFetchActionView::SeqSearch)
}

pub open spec fn fail(m: Seq<char>) -> (FetchStageView, ImapFetchActionView) {
    (FetchStageView::Finished, ImapFetchActionView::Fail(m))
}

pub open spec fn done(kept: Kept, reset: bool) -> (FetchStageView, ImapFetchActionView) {
    (FetchStageView::Finished, ImapFetchActionView::Done { kept, reset })
}

/// The end of a sequence fallback that brought `n` messages.
pub open spec fn sequence_outcome(f: ImapFolderView, fallback: Fallback, n: nat) -> (
    FetchStageView,
    ImapFetchActionView,
) {
    match fallback {
        Fallback::EmptyUidSearch => if n == 0 {
            fail(mailbox_failure(f, "both UID and sequence searches returned no messages"@))
        } else {
            done(Kept::SequenceBatch, f.validity_changed)
        },
        Fallback::UidSearchFailed => if f.exists > 0 && n == 0 {
            fail(mailbox_failure(f, "UID and sequence fallbacks returned no messages"@))
        } else {
            done(Kept::SequenceBatch, f.validity_changed && n > 0)
        },
        Fallback::IncompleteFetch => if f.exists > 0 && n == 0 {
            fail(mailbox_failure(f, "UID and sequence fetches returned no message bodies"@))
        } else {
            done(Kept::SequenceBatch, f.validity_changed)
        },
    }
}

pub open spec fn unexpected() -> (FetchStageView, ImapFetchActionView) {
    fail("IMAP refresh received a reply it did not ask for"@)
}

/// One step of a folder's refresh.  `selection` is the newest selection of
/// what a search found (see `selection_fits`).
pub open spec fn imap_fetch_transition(
    f: ImapFolderView,
    stage: FetchStageView,
    event: ImapFetchEventView,
    selection: Seq<u32>,
) -> (FetchStageView, ImapFetchActionView) {
    match stage {
        FetchStageView::Searching => match event {
            ImapFetchEventView::UidSearched(Ok(_)) => if selection.len() == 0 && f.exists > 0 {
                to_sequences(
                    Fallback::EmptyUidSearch,
                    "UID SEARCH returned no UIDs for a non-empty mailbox"@,
                )
            } else if selection.len() == 0 {
                done(Kept::Nothing, false)
            } else {
                let fresh = uids_where(selection, f.cached_ids, f.validity_changed, false);
                let known = uids_where(selection, f.cached_ids, f.validity_changed, true);
                (
                    FetchStageView::FetchingUids { fresh, known },
                    ImapFetchActionView::UidFetch(fresh),
                )
            },
            ImapFetchEventView::UidSearched(Err(e)) => to_sequences(Fallback::UidSearchFailed, e),
            _ => unexpected(),
        },
        FetchStageView::FetchingUids { fresh, known } => match event {
            ImapFetchEventView::UidFetched(Ok(got)) => if uids_covered(got, fresh) {
                after_bodies(f, fresh, known)
            } else {
                to_sequences(
                    Fallback::IncompleteFetch,
                    fetched_of("UID FETCH returned "@, got.len(), fresh.len()),
                )
            },
            ImapFetchEventView::UidFetched(Err(e)) => (
                FetchStageView::FetchingEach { fresh, known, batch_error: e },
                ImapFetchActionView::FetchEach(fresh),
            ),
            _ => unexpected(),
        },
        FetchStageView::FetchingEach { fresh, known, batch_error } => match event {
            ImapFetchEventView::EachFetched { got, failures } => if got.len() == 0
                && failures.len() > 0 {
                to_sequences(
                    Fallback::IncompleteFetch,
                    "internal error: "@ + batch_error + "; IMAP individual fetch fallback failed: "@
                        + join(failures.map_values(|x: (u32, Seq<char>)| failure_line(x)), "; "@),
                )
            } else if uids_covered(got, fresh) {
                after_bodies(f, fresh, known)
            } else {
                to_sequences(
                    Fallback::IncompleteFetch,
                    fetched_of(batch_error + "; individual UID FETCH returned "@, got.len(), fresh.len()),
                )
            },
            _ => unexpected(),
        },
        FetchStageView::FetchingFlags { reset } => match event {
            ImapFetchEventView::FlagsFetched(Ok(())) => done(Kept::UidBatch, reset),
            ImapFetchEventView::FlagsFetched(Err(e)) => fail(e),
            _ => unexpected(),
        },
        FetchStageView::SeqSearching { fallback, reason } => match event {
            ImapFetchEventView::SeqSearched(Ok(_)) => if selection.len() == 0 {
                sequence_outcome(f, fallback, 0)
            } else {
                (
                    FetchStageView::SeqFetching { fallback, reason, selected: selection },
                    ImapFetchActionView::SeqFetch(selection),
                )
            },
            ImapFetchEventView::SeqSearched(Err(e)) => fail(
                "IMAP UID search failed ("@ + reason + "); sequence search fallback failed: "@ + e,
            ),
            _ => unexpected(),
        },
        FetchStageView::SeqFetching { fallback, reason, selected } => match event {
            ImapFetchEventView::SeqFetched(Ok(got)) => if got.len() != selected.len() {
                fail(
                    "IMAP sequence fallback returned "@ + decimal(got.len()) + " of "@ + decimal(
                        selected.len(),
                    ) + " messages for "@ + f.mailbox + "; existing local cache was preserved"@,
                )
            } else {
                sequence_outcome(f, fallback, got.len())
            },
            ImapFetchEventView::SeqFetched(Err(e)) => fail(
                "IMAP UID search failed ("@ + reason + "); sequence fetch fallback failed: "@ + e,
            ),
            _ => unexpected(),
        },
        FetchStageView::Finished => unexpected(),
    }
}

/// The selection a step uses: for the result of the search it waits for,
/// the newest of what was found; otherwise none.
pub open spec fn selection_fits(
    top: usize,
    stage: FetchStageView,
    event: ImapFetchEventView,
    selection: Seq<u32>,
) -> bool {
    match (stage, event) {
        (FetchStageView::Searching, ImapFetchEventView::UidSearched(Ok(found))) => is_newest_selection(
            selection,
            found,
            top,
        ),
        (FetchStageView::SeqSearching { .. }, ImapFetchEventView::SeqSearched(Ok(found))) =>
            is_newest_selection(selection, found, top),
        _ => selection == Seq::<u32>::empty(),
    }
}

// ---------------------------------------------------------------------------
// Executable step
// ---------------------------------------------------------------------------

fn mailbox_failure_text(f: &ImapFolderFetch, what: &str) -> (r: String)
    ensures
        r@ == mailbox_failure(f@, what@),
{
    let mut m = chars_of("IMAP mailbox ");
    append_str(&mut m, f.mailbox.as_str());
    append_str(&mut m, " reports ");
    append_chars(&mut m, &decimal_u64(f.exists as u64));
    append_str(&mut m, " messages, but ");
    append_str(&mut m, what);
    append_str(&mut m, "; existing local cache was preserved");
    string_of(&m)
}

fn fetched_of_text(prefix: Vec<char>, got: usize, wanted: usize) -> (r: String)
    ensures
        r@ == fetched_of(prefix@, got as nat, wanted as nat),
{
    let mut m = prefix;
    append_chars(&mut m, &decimal_u64(got as u64));
    append_str(&mut m, " of ");
    append_chars(&mut m, &decimal_u64(wanted as u64));
    append_str(&mut m, " requested message bodies");
    string_of(&m)
}

fn sequence_outcome_exec(f: &ImapFolderFetch, fallback: Fallback, n: usize) -> (r: (
    FetchStage,
    ImapFetchAction,
))
    ensures
        (r.0@, r.1@) == sequence_outcome(f@, fallback, n as nat),
{
    match fallback {
        Fallback::EmptyUidSearch => if n == 0 {
            (
                FetchStage::Finished,
                ImapFetchAction::Fail(
                    mailbox_failure_text(f, "both UID and sequence searches returned no messages"),
                ),
            )
        } else {
            (
                FetchStage::Finished,
                ImapFetchAction::Done { kept: Kept::SequenceBatch, reset: f.validity_changed },
            )
        },
        Fallback::UidSearchFailed => if f.exists > 0 && n == 0 {
            (
                FetchStage::Finished,
                ImapFetchAction::Fail(
                    mailbox_failure_text(f, "UID and sequence fallbacks returned no messages"),
                ),
            )
        } else {
            (
                FetchStage::Finished,
                ImapFetchAction::Done {
                    kept: Kept::SequenceBatch,
                    reset: f.validity_changed && n > 0,
                },
            )
        },
        Fallback::IncompleteFetch => if f.exists > 0 && n == 0 {
            (
                FetchStage::Finished,
                ImapFetchAction::Fail(
                    mailbox_failure_text(f, "UID and sequence fetches returned no message bodies"),
                ),
            )
        } else {
            (
                FetchStage::Finished,
                ImapFetchAction::Done { kept: Kept::SequenceBatch, reset: f.validity_changed },
            )
        },
    }
}

fn unexpected_exec() -> (r: (FetchStage, ImapFetchAction))
    ensures
        (r.0@, r.1@) == unexpected(),
{
    (
        FetchStage::Finished,
        ImapFetchAction::Fail("IMAP refresh received a reply it did not ask for".to_string()),
    )
}

fn seq_failure_text(reason: &String, what: &str, e: &String) -> (r: String)
    ensures
        r@ == "IMAP UID search failed ("@ + reason@ + what@ + e@,
{
    let mut m = chars_of("IMAP UID search failed (");
    append_str(&mut m, reason.as_str());
    append_str(&mut m, what);
    append_str(&mut m, e.as_str());
    string_of(&m)
}

fn individual_failure_text(batch_error: &String, failures: &Vec<(u32, String)>) -> (r: String)
    ensures
        r@ == "internal error: "@ + batch_error@ + "; IMAP individual fetch fallback failed: "@
            + join(
            failure_views(failures@).map_values(|x: (u32, Seq<char>)| failure_line(x)),
            "; "@,
        ),
{
    let mut lines: Vec<Vec<char>> = Vec::new();
    let mut i: usize = 0;
    while i < failures.len()
        invariant
            0 <= i <= failures.len(),
            lines@.len() == i,
            forall|k: int|
                0 <= k < i ==> #[trigger] lines@[k]@ == failure_line(
                    (failures@[k].0, failures@[k].1@),
                ),
        decreases failures.len() - i,
    {
        let mut line = decimal_u64(failures[i].0 as u64);
        append_str(&mut line, ": ");
        append_str(&mut line, failures[i].1.as_str());
        lines.push(line);
        i = i + 1;
    }
    assert(views(lines@) =~= failure_views(failures@).map_values(
        |x: (u32, Seq<char>)| failure_line(x),
    ));
    let mut m = chars_of("internal error: ");
    append_str(&mut m, batch_error.as_str());
    append_str(&mut m, "; IMAP individual fetch fallback failed: ");
    let sep = chars_of("; ");
    append_chars(&mut m, &join_exec(&lines, &sep));
    string_of(&m)
}

/// Takes one step of a folder's refresh: from where it stands and what came
/// of the last action, where it stands next and what to do.  A refresh
/// starts at `Searching` with a UID SEARCH.
pub fn imap_fetch_step(f: &ImapFolderFetch, stage: FetchStage, event: ImapFetchEvent) -> (r: (
    FetchStage,
    ImapFetchAction,
))
    ensures
        exists|selection: Seq<u32>|
            selection_fits(f.top, stage@, event@, selection) && (r.0@, r.1@) == #[trigger] imap_fetch_transition(
                f@,
                stage@,
                event@,
                selection,
            ),
{
    let ghost ev = event@;
    let ghost st = stage@;
    let ghost none = Seq::<u32>::empty();
    match stage {
        FetchStage::Searching => match event {
            ImapFetchEvent::UidSearched(Ok(found)) => {
                let selection = newest_uids(&found, f.top);
                assert(selection_fits(f.top, st, ev, selection@));
                if selection.len() == 0 && f.exists > 0 {
                    let r = (
                        FetchStage::SeqSearching {
                            fallback: Fallback::EmptyUidSearch,
                            reason: "UID SEARCH returned no UIDs for a non-empty mailbox".to_string(),
                        },
                        ImapFetchAction::SeqSearch,
                    );
                    assert((r.0@, r.1@) == imap_fetch_transition(f@, st, ev, selection@));
                    return r;
                }
                if selection.len() == 0 {
                    let r = (
                        FetchStage::Finished,
                        ImapFetchAction::Done { kept: Kept::Nothing, reset: false },
                    );
                    assert((r.0@, r.1@) == imap_fetch_transition(f@, st, ev, selection@));
                    return r;
                }
                let (known, fresh) = match &f.cached_ids {
                    Some(ids) => partition_imap_uids(&selection, Some(ids.as_slice()), f.validity_changed),
                    None => partition_imap_uids(&selection, None, f.validity_changed),
                };
                let action = ImapFetchAction::UidFetch(fresh.clone());
                let r = (FetchStage::FetchingUids { fresh, known }, action);
                assert((r.0@, r.1@) == imap_fetch_transition(f@, st, ev, selection@));
                r
            },
            ImapFetchEvent::UidSearched(Err(e)) => {
                let r = (
                    FetchStage::SeqSearching { fallback: Fallback::UidSearchFailed, reason: e },
                    ImapFetchAction::SeqSearch,
                );
                assert((r.0@, r.1@) == imap_fetch_transition(f@, st, ev, none));
                r
            },
            _ => {
                let r = unexpected_exec();
                assert((r.0@, r.1@) == imap_fetch_transition(f@, st, ev, none));
                r
            },
        },
        FetchStage::FetchingUids { fresh, known } => match event {
            ImapFetchEvent::UidFetched(Ok(got)) => {
                if fetched_imap_uids_cover(&got, &fresh) {
                    let reset = f.validity_changed && fresh.len() > 0;
                    let r = (FetchStage::FetchingFlags { reset }, ImapFetchAction::FetchFlags(known));
                    assert((r.0@, r.1@) == imap_fetch_transition(f@, st, ev, none));
                    r
                } else {
                    let reason = fetched_of_text(chars_of("UID FETCH returned "), got.len(), fresh.len());
                    let r = (
                        FetchStage::SeqSearching { fallback: Fallback::IncompleteFetch, reason },
                        ImapFetchAction::SeqSearch,
                    );
                    assert((r.0@, r.1@) == imap_fetch_transition(f@, st, ev, none));
                    r
                }
            },
            ImapFetchEvent::UidFetched(Err(e)) => {
                let action = ImapFetchAction::FetchEach(fresh.clone());
                let r = (FetchStage::FetchingEach { fresh, known, batch_error: e }, action);
                assert((r.0@, r.1@) == imap_fetch_transition(f@, st, ev, none));
                r
            },
            _ => {
                let r = unexpected_exec();
                assert((r.0@, r.1@) == imap_fetch_transition(f@, st, ev, none));
                r
            },
        },
        FetchStage::FetchingEach { fresh, known, batch_error } => match event {
            ImapFetchEvent::EachFetched { got, failures } => {
                if got.len() == 0 && failures.len() > 0 {
                    let reason = individual_failure_text(&batch_error, &failures);
                    let r = (
                        FetchStage::SeqSearching { fallback: Fallback::IncompleteFetch, reason },
                        ImapFetchAction::SeqSearch,
                    );
                    assert((r.0@, r.1@) == imap_fetch_transition(f@, st, ev, none));
                    r
                } else if fetched_imap_uids_cover(&got, &fresh) {
                    let reset = f.validity_changed && fresh.len() > 0;
                    let r = (FetchStage::FetchingFlags { reset }, ImapFetchAction::FetchFlags(known));
                    assert((r.0@, r.1@) == imap_fetch_transition(f@, st, ev, none));
                    r
                } else {
                    let mut prefix = chars_of(batch_error.as_str());
                    append_str(&mut prefix, "; individual UID FETCH returned ");
                    let reason = fetched_of_text(prefix, got.len(), fresh.len());
                    let r = (
                        FetchStage::SeqSearching { fallback: Fallback::IncompleteFetch, reason },
                        ImapFetchAction::SeqSearch,
                    );
                    assert((r.0@, r.1@) == imap_fetch_transition(f@, st, ev, none));
                    r
                }
            },
            _ => {
                let r = unexpected_exec();
                assert((r.0@, r.1@) == imap_fetch_transition(f@, st, ev, none));
                r
            },
        },
        FetchStage::FetchingFlags { reset } => match event {
            ImapFetchEvent::FlagsFetched(Ok(())) => {
                let r = (FetchStage::Finished, ImapFetchAction::Done { kept: Kept::UidBatch, reset });
                assert((r.0@, r.1@) == imap_fetch_transition(f@, st, ev, none));
                r
            },
            ImapFetchEvent::FlagsFetched(Err(e)) => {
                let r = (FetchStage::Finished, ImapFetchAction::Fail(e));
                assert((r.0@, r.1@) == imap_fetch_transition(f@, st, ev, none));
                r
            },
            _ => {
                let r = unexpected_exec();
                assert((r.0@, r.1@) == imap_fetch_transition(f@, st, ev, none));
                r
            },
        },
        FetchStage::SeqSearching { fallback, reason } => match event {
            ImapFetchEvent::SeqSearched(Ok(found)) => {
                let selection = newest_uids(&found, f.top);
                assert(selection_fits(f.top, st, ev, selection@));
                if selection.len() == 0 {
                    let r = sequence_outcome_exec(f, fallback, 0);
                    assert((r.0@, r.1@) == imap_fetch_transition(f@, st, ev, selection@));
                    return r;
                }
                let action = ImapFetchAction::SeqFetch(selection.clone());
                let r = (FetchStage::SeqFetching { fallback, reason, selected: selection }, action);
                assert((r.0@, r.1@) == imap_fetch_transition(f@, st, ev, selection@));
                r
            },
            ImapFetchEvent::SeqSearched(Err(e)) => {
                let m = seq_failure_text(&reason, "); sequence search fallback failed: ", &e);
                let r = (FetchStage::Finished, ImapFetchAction::Fail(m));
                assert((r.0@, r.1@) == imap_fetch_transition(f@, st, ev, none));
                r
            },
            _ => {
                let r = unexpected_exec();
                assert((r.0@, r.1@) == imap_fetch_transition(f@, st, ev, none));
                r
            },
        },
        FetchStage::SeqFetching { fallback, reason, selected } => match event {
            ImapFetchEvent::SeqFetched(Ok(got)) => {
                if got.len() != selected.len() {
                    let mut m = chars_of("IMAP sequence fallback returned ");
                    append_chars(&mut m, &decimal_u64(got.len() as u64));
                    append_str(&mut m, " of ");
                    append_chars(&mut m, &decimal_u64(selected.len() as u64));
                    append_str(&mut m, " messages for ");
                    append_str(&mut m, f.mailbox.as_str());
                    append_str(&mut m, "; existing local cache was preserved");
                    let r = (FetchStage::Finished, ImapFetchAction::Fail(string_of(&m)));
                    assert((r.0@, r.1@) == imap_fetch_transition(f@, st, ev, none));
                    r
                } else {
                    let r = sequence_outcome_exec(f, fallback, got.len());
                    assert((r.0@, r.1@) == imap_fetch_transition(f@, st, ev, none));
                    r
                }
            },
            ImapFetchEvent::SeqFetched(Err(e)) => {
                let m = seq_failure_text(&reason, "); sequence fetch fallback failed: ", &e);
                let r = (FetchStage::Finished, ImapFetchAction::Fail(m));
                assert((r.0@, r.1@) == imap_fetch_transition(f@, st, ev, none));
                r
            },
            _ => {
                let r = unexpected_exec();
                assert((r.0@, r.1@) == imap_fetch_transition(f@, st, ev, none));
                r
            },
        },
        FetchStage::Finished => {
            let r = unexpected_exec();
            assert((r.0@, r.1@) == imap_fetch_transition(f@, st, ev, none));
            r
        },
    }
}

// ---------------------------------------------------------------------------
// After the folders
// ---------------------------------------------------------------------------

/// The other folders are listed only when the folders read reported no
/// message at all, nothing is cached for them, and nothing was fetched.
pub fn needs_folder_listing(exists: &[u32], has_cached: bool, fetched_any: bool) -> (r: bool)
    ensures
        r == ((forall|i: int| 0 <= i < exists@.len() ==> exists@[i] == 0) && !has_cached
            && !fetched_any),
{
    let mut i: usize = 0;
    while i < exists.len()
        invariant
            0 <= i <= exists.len(),
            forall|k: int| 0 <= k < i ==> exists@[k] == 0,
        decreases exists.len() - i,
    {
        if exists[i] != 0 {
            return false;
        }
        i = i + 1;
    }
    !has_cached && !fetched_any
}

/// The listed folders that hold messages, as "name (count)".
pub open spec fn nonempty_folders(folders: Seq<(Seq<char>, u32)>) -> Seq<Seq<char>>
    decreases folders.len(),
{
    if folders.len() == 0 {
        Seq::empty()
    } else {
        let rest = nonempty_folders(folders.drop_last());
        let (name, count) = folders.last();
        if count > 0 {
            rest.push(name + " ("@ + decimal(count as nat) + ")"@)
        } else {
            rest
        }
    }
}

pub open spec fn folder_views(folders: Seq<(String, u32)>) -> Seq<(Seq<char>, u32)> {
    folders.map_values(|x: (String, u32)| (x.0@, x.1))
}

/// When the inbox and junk folders are empty but other folders hold mail,
/// the refresh fails and names them, keeping the cached mail.
pub open spec fn other_folders_message(folders: Seq<(Seq<char>, u32)>) -> Option<Seq<char>> {
    let found = nonempty_folders(folders);
    if found.len() == 0 {
        None
    } else {
        Some(
            "IMAP inbox/junk folders are empty, but the server reports messages in other folders: "@
                + join(found, ", "@) + ". Existing local cache was preserved"@,
        )
    }
}

/// The failure for a refresh that found its folders empty, from the
/// selectable folders of the account and their message counts.
pub fn other_folders_failure(folders: &[(String, u32)]) -> (r: Option<String>)
    ensures
        match other_folders_message(folder_views(folders@)) {
            Some(m) => r matches Some(x) && x@ == m,
            None => r is None,
        },
{
    let ghost fv = folder_views(folders@);
    let mut found: Vec<Vec<char>> = Vec::new();
    let mut i: usize = 0;
    while i < folders.len()
        invariant
            0 <= i <= folders.len(),
            fv == folder_views(folders@),
            views(found@) == nonempty_folders(fv.take(i as int)),
        decreases folders.len() - i,
    {
        assert(fv.take(i + 1).drop_last() =~= fv.take(i as int));
        assert(fv.take(i + 1).last() == (folders@[i as int].0@, folders@[i as int].1));
        if folders[i].1 > 0 {
            let mut line = chars_of(folders[i].0.as_str());
            append_str(&mut line, " (");
            append_chars(&mut line, &decimal_u64(folders[i].1 as u64));
            append_str(&mut line, ")");
            let ghost before = views(found@);
            found.push(line);
            assert(views(found@) =~= before.push(line@));
        }
        i = i + 1;
    }
    assert(fv.take(folders.len() as int) =~= fv);
    if found.len() == 0 {
        return None;
    }
    let mut m = chars_of(
        "IMAP inbox/junk folders are empty, but the server reports messages in other folders: ",
    );
    let sep = chars_of(", ");
    append_chars(&mut m, &join_exec(&found, &sep));
    append_str(&mut m, ". Existing local cache was preserved");
    Some(string_of(&m))
}

/// `a` comes before `b` when it was received later, or at the same time and
/// earlier in the list.
pub open spec fn received_before(keys: Seq<i64>, a: int, b: int) -> bool {
    keys[a] > keys[b] || (keys[a] == keys[b] && a < b)
}

/// `order` lists every position of `keys` once, newest first, keeping the
/// list order among messages received at the same time.
pub open spec fn newest_first_order(keys: Seq<i64>, order: Seq<usize>) -> bool {
    &&& order.len() == keys.len()
    &&& forall|i: int| 0 <= i < order.len() ==> order[i] < keys.len()
    &&& forall|i: int, j: int|
        0 <= i < j < order.len() ==> received_before(keys, order[i] as int, order[j] as int)
}

/// The order in which the fetched messages are reported: newest first, and
/// in fetch order among messages received at the same second.
pub fn newest_first(keys: &[i64]) -> (r: Vec<usize>)
    ensures
        newest_first_order(keys@, r@),
{
    let mut order: Vec<usize> = Vec::new();
    let mut n: usize = 0;
    while n < keys.len()
        invariant
            0 <= n <= keys.len(),
            order@.len() == n,
            forall|i: int| 0 <= i < order@.len() ==> order@[i] < n,
            forall|i: int, j: int|
                0 <= i < j < order@.len() ==> received_before(
                    keys@,
                    order@[i] as int,
                    order@[j] as int,
                ),
        decreases keys.len() - n,
    {
        let key = keys[n];
        let mut k: usize = 0;
        while k < order.len() && keys[order[k]] >= key
            invariant
                0 <= k <= order@.len(),
                n < keys.len(),
                key == keys@[n as int],
                forall|i: int| 0 <= i < order@.len() ==> order@[i] < n,
                forall|i: int| 0 <= i < k ==> keys@[order@[i] as int] >= key,
            decreases order@.len() - k,
        {
            k = k + 1;
        }
        let ghost before = order@;
        proof {
            assert forall|i: int| k <= i < before.len() implies keys@[before[i] as int] < key by {
                if k < before.len() {
                    assert(keys@[before[k as int] as int] < key);
                    if i > k {
                        assert(received_before(keys@, before[k as int] as int, before[i] as int));
                    }
                }
            }
        }
        order.insert(k, n);
        proof {
            assert forall|i: int, j: int| 0 <= i < j < order@.len() implies received_before(
                keys@,
                order@[i] as int,
                order@[j] as int,
            ) by {
                if j < k {
                    assert(order@[i] == before[i] && order@[j] == before[j]);
                } else if j == k {
                    assert(order@[i] == before[i]);
                } else if i < k {
                    assert(order@[i] == before[i] && order@[j] == before[j - 1]);
                } else if i == k {
                    assert(order@[j] == before[j - 1]);
                } else {
                    assert(order@[i] == before[i - 1] && order@[j] == before[j - 1]);
                }
            }
        }
        n = n + 1;
    }
    order
}

} // verus!
