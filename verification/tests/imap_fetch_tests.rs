use outlook_email::imap_fetch::{
    imap_fetch_step, needs_folder_listing, newest_first, other_folders_failure, FetchStage,
    Fallback, ImapFetchAction, ImapFetchEvent, ImapFolderFetch, Kept,
};

fn folder(exists: u32, changed: bool, cached: Option<Vec<&str>>) -> ImapFolderFetch {
    ImapFolderFetch {
        mailbox: "INBOX".to_string(),
        exists,
        top: 2,
        validity_changed: changed,
        cached_ids: cached.map(|ids| ids.into_iter().map(str::to_string).collect()),
    }
}

fn ids(v: &[&str]) -> Vec<String> {
    v.iter().map(|x| x.to_string()).collect()
}

fn failed(action: ImapFetchAction) -> String {
    match action {
        ImapFetchAction::Fail(m) => m,
        other => panic!("expected a failure, got {:?}", other),
    }
}

#[test]
fn uid_path_fetches_new_bodies_and_flags_of_cached_ones() {
    let f = folder(3, false, Some(vec!["2"]));
    let (stage, action) = imap_fetch_step(&f, FetchStage::Searching, ImapFetchEvent::UidSearched(Ok(vec![1, 3, 2])));
    assert!(matches!(&action, ImapFetchAction::UidFetch(v) if v == &vec![3]));
    let (stage, action) = imap_fetch_step(&f, stage, ImapFetchEvent::UidFetched(Ok(ids(&["3"]))));
    assert!(matches!(&action, ImapFetchAction::FetchFlags(v) if v == &vec![2]));
    let (stage, action) = imap_fetch_step(&f, stage, ImapFetchEvent::FlagsFetched(Ok(())));
    assert!(matches!(stage, FetchStage::Finished));
    assert!(matches!(action, ImapFetchAction::Done { kept: Kept::UidBatch, reset: false }));
}

#[test]
fn empty_mailbox_is_done_without_fetching() {
    let f = folder(0, true, None);
    let (_, action) = imap_fetch_step(&f, FetchStage::Searching, ImapFetchEvent::UidSearched(Ok(vec![])));
    assert!(matches!(action, ImapFetchAction::Done { kept: Kept::Nothing, reset: false }));
}

#[test]
fn empty_uid_search_falls_back_to_sequences_and_keeps_the_cache() {
    let f = folder(5, false, None);
    let (stage, action) = imap_fetch_step(&f, FetchStage::Searching, ImapFetchEvent::UidSearched(Ok(vec![])));
    assert!(matches!(action, ImapFetchAction::SeqSearch));
    assert!(matches!(&stage, FetchStage::SeqSearching { fallback: Fallback::EmptyUidSearch, .. }));
    let (_, action) = imap_fetch_step(&f, stage, ImapFetchEvent::SeqSearched(Ok(vec![])));
    assert_eq!(
        failed(action),
        "IMAP mailbox INBOX reports 5 messages, but both UID and sequence searches returned no messages; existing local cache was preserved"
    );
}

#[test]
fn failed_uid_search_reports_both_errors() {
    let f = folder(5, false, None);
    let (stage, _) = imap_fetch_step(&f, FetchStage::Searching, ImapFetchEvent::UidSearched(Err("NO search".to_string())));
    let (_, action) = imap_fetch_step(&f, stage, ImapFetchEvent::SeqSearched(Err("boom".to_string())));
    assert_eq!(failed(action), "IMAP UID search failed (NO search); sequence search fallback failed: boom");
    let (stage, _) = imap_fetch_step(&f, FetchStage::Searching, ImapFetchEvent::UidSearched(Err("NO search".to_string())));
    let (stage, action) = imap_fetch_step(&f, stage, ImapFetchEvent::SeqSearched(Ok(vec![4, 5, 1])));
    assert!(matches!(&action, ImapFetchAction::SeqFetch(v) if v == &vec![5, 4]));
    let (_, action) = imap_fetch_step(&f, stage, ImapFetchEvent::SeqFetched(Err("gone".to_string())));
    assert_eq!(failed(action), "IMAP UID search failed (NO search); sequence fetch fallback failed: gone");
}

#[test]
fn incomplete_uid_fetch_uses_sequences() {
    let f = folder(4, true, None);
    let (stage, _) = imap_fetch_step(&f, FetchStage::Searching, ImapFetchEvent::UidSearched(Ok(vec![7, 9])));
    let (stage, action) = imap_fetch_step(&f, stage, ImapFetchEvent::UidFetched(Ok(ids(&["9"]))));
    assert!(matches!(action, ImapFetchAction::SeqSearch));
    match &stage {
        FetchStage::SeqSearching { fallback: Fallback::IncompleteFetch, reason } => {
            assert_eq!(reason, "UID FETCH returned 1 of 2 requested message bodies")
        }
        other => panic!("unexpected {:?}", other),
    }
    let (stage, _) = imap_fetch_step(&f, stage, ImapFetchEvent::SeqSearched(Ok(vec![1, 2])));
    let short = imap_fetch_step(&f, stage.clone(), ImapFetchEvent::SeqFetched(Ok(ids(&["9"]))));
    assert_eq!(
        failed(short.1),
        "IMAP sequence fallback returned 1 of 2 messages for INBOX; existing local cache was preserved"
    );
    let (_, action) = imap_fetch_step(&f, stage, ImapFetchEvent::SeqFetched(Ok(ids(&["9", "7"]))));
    assert!(matches!(action, ImapFetchAction::Done { kept: Kept::SequenceBatch, reset: true }));
}

#[test]
fn failed_batch_fetch_retries_each_uid() {
    let f = folder(4, false, None);
    let (stage, _) = imap_fetch_step(&f, FetchStage::Searching, ImapFetchEvent::UidSearched(Ok(vec![7, 9])));
    let (stage, action) = imap_fetch_step(&f, stage, ImapFetchEvent::UidFetched(Err("IMAP fetch failed: BAD".to_string())));
    assert!(matches!(&action, ImapFetchAction::FetchEach(v) if v == &vec![9, 7]));
    let ok = imap_fetch_step(&f, stage.clone(), ImapFetchEvent::EachFetched { got: ids(&["7", "9"]), failures: vec![] });
    assert!(matches!(ok.1, ImapFetchAction::FetchFlags(ref v) if v.is_empty()));
    let (stage, _) = imap_fetch_step(
        &f,
        stage,
        ImapFetchEvent::EachFetched { got: vec![], failures: vec![(9, "x".to_string()), (7, "y".to_string())] },
    );
    match &stage {
        FetchStage::SeqSearching { reason, .. } => assert_eq!(
            reason,
            "internal error: IMAP fetch failed: BAD; IMAP individual fetch fallback failed: 9: x; 7: y"
        ),
        other => panic!("unexpected {:?}", other),
    }
    let (_, action) = imap_fetch_step(&f, stage, ImapFetchEvent::SeqSearched(Ok(vec![])));
    assert_eq!(
        failed(action),
        "IMAP mailbox INBOX reports 4 messages, but UID and sequence fetches returned no message bodies; existing local cache was preserved"
    );
}

#[test]
fn empty_folders_name_the_others_and_results_come_newest_first() {
    assert!(needs_folder_listing(&[0, 0], false, false));
    assert!(!needs_folder_listing(&[0, 3], false, false));
    assert!(!needs_folder_listing(&[], true, false));
    assert_eq!(other_folders_failure(&[("Archive".to_string(), 0)]), None);
    assert_eq!(
        other_folders_failure(&[("Archive".to_string(), 12), ("Empty".to_string(), 0), ("Old".to_string(), 3)]).unwrap(),
        "IMAP inbox/junk folders are empty, but the server reports messages in other folders: Archive (12), Old (3). Existing local cache was preserved"
    );
    assert_eq!(newest_first(&[5, 9, 5, 1, 9]), vec![1, 4, 0, 2, 3]);
    assert!(newest_first(&[]).is_empty());
}
