use outlook_email::providers::{
    graph_message_content, graph_messages_url, graph_remaining_after_page, newest_uids,
    partition_imap_uids,
    GraphBody, GraphEmailAddress, GraphMessage, GraphRecipient,
};

#[test]
fn selected_uids_split_into_cached_and_new() {
    let cached = vec!["7".to_string(), "9".to_string(), "x".to_string()];
    let (old, new) = partition_imap_uids(&[9, 8, 7, 6], Some(&cached), false);
    assert_eq!(old, vec![9, 7]);
    assert_eq!(new, vec![8, 6]);
    let (old, new) = partition_imap_uids(&[9, 8, 7], Some(&cached), true);
    assert!(old.is_empty());
    assert_eq!(new, vec![9, 8, 7]);
    let (old, new) = partition_imap_uids(&[3], None, false);
    assert!(old.is_empty());
    assert_eq!(new, vec![3]);
}

#[test]
fn graph_listing_pages() {
    assert_eq!(
        graph_messages_url("inbox", 50, true),
        "https://graph.microsoft.com/v1.0/me/mailFolders/inbox/messages?$top=50&$orderby=receivedDateTime%20desc&$select=id,receivedDateTime,isRead"
    );
    assert_eq!(
        graph_messages_url("junkemail", 5000, false),
        "https://graph.microsoft.com/v1.0/me/mailFolders/junkemail/messages?$top=1000&$orderby=receivedDateTime%20desc&$select=id,subject,from,toRecipients,ccRecipients,receivedDateTime,isRead,hasAttachments,bodyPreview,body"
    );
    assert_eq!(graph_remaining_after_page(1500, 1000), Some(500));
    assert_eq!(graph_remaining_after_page(500, 500), None);
    assert_eq!(graph_remaining_after_page(500, 0), None);
}

fn address(name: Option<&str>, address: &str) -> GraphRecipient {
    GraphRecipient {
        email_address: Some(GraphEmailAddress {
            name: name.map(|n| n.to_string()),
            address: address.to_string(),
        }),
    }
}

#[test]
fn graph_messages_as_cached() {
    let message = GraphMessage {
        id: "AAMk".to_string(),
        subject: None,
        from: Some(address(Some("Ann"), "ann@x.y")),
        to_recipients: Some(vec![address(None, "b@x.y"), address(Some("C"), "c@x.y")]),
        cc_recipients: None,
        received_date_time: Some("2026-07-07T12:00:00Z".to_string()),
        is_read: None,
        has_attachments: Some(true),
        body_preview: Some("hi".to_string()),
        body: Some(GraphBody { content_type: "HTML".to_string(), content: "<p>hi</p>".to_string() }),
    };
    let cached = graph_message_content(message, "inbox");
    assert_eq!(cached.folder, "inbox");
    assert_eq!(cached.provider_message_id, "AAMk");
    assert_eq!(cached.subject, "(no subject)");
    assert_eq!(cached.sender, "Ann <ann@x.y>");
    assert_eq!(cached.recipients, "b@x.y, c@x.y");
    assert_eq!(cached.cc, "");
    assert_eq!(cached.received_at, "2026-07-07T12:00:00Z");
    assert_eq!(cached.received_seconds, 1_783_425_600);
    assert!(!cached.is_read);
    assert!(cached.has_attachments);
    assert_eq!(cached.body_type, "html");
    assert_eq!(cached.body.as_deref(), Some("<p>hi</p>"));

    let bare = graph_message_content(
        GraphMessage {
            id: "x".to_string(),
            subject: Some("S".to_string()),
            from: None,
            to_recipients: None,
            cc_recipients: None,
            received_date_time: Some("2026-07-07T12:00:00Z".to_string()),
            is_read: Some(true),
            has_attachments: None,
            body_preview: None,
            body: Some(GraphBody { content_type: "text".to_string(), content: String::new() }),
        },
        "junkemail",
    );
    assert_eq!(bare.sender, "");
    assert_eq!(bare.body, None);
    assert_eq!(bare.body_type, "text");
    assert!(bare.is_read);
}

#[test]
fn refreshes_look_at_the_newest_uids() {
    assert_eq!(newest_uids(&[4, 9, 1, 7, 9, 12], 3), vec![12, 9, 7]);
    assert_eq!(newest_uids(&[4, 9, 1], 0), vec![9]);
    assert_eq!(newest_uids(&[2, 1, 2], 50), vec![2, 1]);
    assert!(newest_uids(&[], 10).is_empty());
    let many: Vec<u32> = (0..5000).collect();
    let picked = newest_uids(&many, 9000);
    assert_eq!(picked.len(), 2000);
    assert_eq!(picked[0], 4999);
    assert_eq!(picked[1999], 3000);
}
