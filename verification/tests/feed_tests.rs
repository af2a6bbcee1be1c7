use feedcore::feed::{
    Channel, ContentMedium, Feed, Guid, Item, MediaContent, ParseError, str_eq, str_starts_with,
};
use feedcore::ids::FeedId;
use feedcore::types::{Entry, Subscription};

fn bare_item() -> Item {
    Item {
        title: None,
        link: None,
        description: None,
        author: None,
        enclosure: None,
        guid: None,
        pub_date: None,
        content: None,
        content_encoded: None,
        media_content: Vec::new(),
    }
}

#[test]
fn content_medium_from_str_accepts_the_five_kinds() {
    assert_eq!(ContentMedium::from_str("image"), Ok(ContentMedium::Image));
    assert_eq!(ContentMedium::from_str("audio"), Ok(ContentMedium::Audio));
    assert_eq!(ContentMedium::from_str("video"), Ok(ContentMedium::Video));
    assert_eq!(ContentMedium::from_str("document"), Ok(ContentMedium::Document));
    assert_eq!(ContentMedium::from_str("executable"), Ok(ContentMedium::Executable));
}

#[test]
fn content_medium_from_str_rejects_other_text() {
    assert_eq!(ContentMedium::from_str("Image"), Err(ParseError));
    assert_eq!(ContentMedium::from_str(""), Err(ParseError));
    assert_eq!(ContentMedium::from_str("imagery"), Err(ParseError));
}

#[test]
fn content_medium_text_forms() {
    assert_eq!(ContentMedium::Image.text(), "image");
    assert_eq!(ContentMedium::Executable.text(), "executable");
}

#[test]
fn str_helpers() {
    assert!(str_eq("héllo", "héllo"));
    assert!(!str_eq("héllo", "hello"));
    assert!(!str_eq("ab", "abc"));
    assert!(str_starts_with("image/png", "image/"));
    assert!(!str_starts_with("img/png", "image/"));
    assert!(!str_starts_with("image", "image/"));
}

#[test]
fn from_item_without_identity_is_skipped() {
    assert_eq!(Entry::from_item(FeedId(1), &bare_item(), 5), None);
}

#[test]
fn from_item_prefers_guid_over_link() {
    let mut item = bare_item();
    item.guid = Some(Guid { value: "guid-text".to_string(), is_perma_link: false });
    item.link = Some("https://example.org/post".to_string());
    item.pub_date = Some(1672531200);
    let by_guid = Entry::from_item(FeedId(1), &item, 5).unwrap();
    item.guid = None;
    let by_link = Entry::from_item(FeedId(1), &item, 5).unwrap();
    assert_ne!(by_guid.id, by_link.id);
    assert_eq!(
        by_link.id,
        feedcore::ids::EntryId::from_ident_and_date("https://example.org/post", 1672531200)
    );
}

#[test]
fn from_item_missing_date_falls_back_to_epoch() {
    let mut item = bare_item();
    item.guid = Some(Guid { value: "g".to_string(), is_perma_link: false });
    let e = Entry::from_item(FeedId(1), &item, 77).unwrap();
    assert_eq!(e.published, 0);
    assert_eq!(e.id, feedcore::ids::EntryId::from_ident_and_date("g", 0));
    assert_eq!(e.created_at, 77);
}

#[test]
fn from_item_content_precedence() {
    let mut item = bare_item();
    item.guid = Some(Guid { value: "g".to_string(), is_perma_link: false });
    item.description = Some("desc".to_string());
    let e = Entry::from_item(FeedId(1), &item, 0).unwrap();
    assert_eq!(e.content.as_deref(), Some("desc"));
    assert_eq!(e.summary.as_deref(), Some("desc"));

    item.content_encoded = Some("enc".to_string());
    let e = Entry::from_item(FeedId(1), &item, 0).unwrap();
    assert_eq!(e.content.as_deref(), Some("enc"));

    item.content = Some("plain".to_string());
    let e = Entry::from_item(FeedId(1), &item, 0).unwrap();
    assert_eq!(e.content.as_deref(), Some("plain"));
    assert_eq!(e.summary.as_deref(), Some("desc"));
}

#[test]
fn from_item_picks_first_image_attachment() {
    let mut item = bare_item();
    item.guid = Some(Guid { value: "g".to_string(), is_perma_link: false });
    item.media_content = vec![
        MediaContent { url: "https://e.org/a.mp3".to_string(), mime_type: Some("audio/mpeg".to_string()), medium: None },
        MediaContent { url: "https://e.org/b.png".to_string(), mime_type: Some("image/png".to_string()), medium: None },
        MediaContent { url: "https://e.org/c.jpg".to_string(), mime_type: None, medium: Some(ContentMedium::Image) },
    ];
    let e = Entry::from_item(FeedId(1), &item, 0).unwrap();
    assert_eq!(e.image.unwrap().url, "https://e.org/b.png");
}

#[test]
fn from_item_image_by_declared_medium() {
    let mut item = bare_item();
    item.guid = Some(Guid { value: "g".to_string(), is_perma_link: false });
    item.media_content = vec![MediaContent {
        url: "https://e.org/c.jpg".to_string(),
        mime_type: None,
        medium: Some(ContentMedium::Image),
    }];
    let e = Entry::from_item(FeedId(1), &item, 0).unwrap();
    assert_eq!(e.image.unwrap().url, "https://e.org/c.jpg");
}

#[test]
fn from_item_without_image_attachment() {
    let mut item = bare_item();
    item.guid = Some(Guid { value: "g".to_string(), is_perma_link: false });
    item.media_content = vec![MediaContent {
        url: "https://e.org/a.mp3".to_string(),
        mime_type: Some("audio/mpeg".to_string()),
        medium: Some(ContentMedium::Audio),
    }];
    let e = Entry::from_item(FeedId(1), &item, 0).unwrap();
    assert!(e.image.is_none());
}

#[test]
fn from_feed_copies_channel_fields() {
    let feed = Feed {
        channel: Channel {
            title: "A Blog".to_string(),
            link: "https://example.org".to_string(),
            description: "d".to_string(),
            language: None,
            items: Vec::new(),
        },
    };
    let sub = Subscription::from_feed(FeedId(9), &feed, "https://example.org/feed.xml", 123);
    assert_eq!(sub.id, FeedId(9));
    assert_eq!(sub.feed_id, FeedId(9));
    assert_eq!(sub.title, "A Blog");
    assert_eq!(sub.feed_url, "https://example.org/feed.xml");
    assert_eq!(sub.site_url, "https://example.org");
    assert_eq!(sub.created_at, 123);
}
