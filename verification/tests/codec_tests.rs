use feedcore::ids::{EntryId, FeedId, TaggingId};
use feedcore::types::{Entry, Image, Subscription, Tagging};

fn sample_entry() -> Entry {
    Entry {
        id: EntryId(42),
        feed_id: FeedId(7),
        title: Some("Grüße — un título".to_string()),
        url: Some("https://example.org/a?q=1".to_string()),
        extracted_content_url: None,
        author: None,
        content: Some("body \u{1F600} text".to_string()),
        summary: Some(String::new()),
        published: 1672531200,
        created_at: -3,
        image: Some(Image { url: "https://example.org/i.png".to_string() }),
    }
}

#[test]
fn entry_roundtrip() {
    let e = sample_entry();
    let bytes = e.encode();
    let back = Entry::decode(bytes.as_slice()).expect("an encoded entry decodes");
    assert_eq!(back, e);
}

#[test]
fn entry_roundtrip_all_absent() {
    let e = Entry {
        id: EntryId(0),
        feed_id: FeedId(0),
        title: None,
        url: None,
        extracted_content_url: None,
        author: None,
        content: None,
        summary: None,
        published: i64::MIN,
        created_at: i64::MAX,
        image: None,
    };
    let bytes = e.encode();
    assert_eq!(Entry::decode(bytes.as_slice()), Some(e));
}

#[test]
fn entry_decode_rejects_garbage() {
    assert_eq!(Entry::decode(&[1, 2, 3]), None);
    assert_eq!(Entry::decode(&[]), None);
    let mut bytes = sample_entry().encode();
    bytes.pop();
    assert_eq!(Entry::decode(bytes.as_slice()), None);
    let mut longer = sample_entry().encode();
    longer.push(0);
    assert_eq!(Entry::decode(longer.as_slice()), None);
}

#[test]
fn subscription_roundtrip() {
    let s = Subscription {
        id: FeedId(11),
        created_at: 1000,
        feed_id: FeedId(11),
        title: "a blog".to_string(),
        feed_url: "https://example.org/feed.xml".to_string(),
        site_url: "https://example.org".to_string(),
    };
    let bytes = s.encode();
    assert_eq!(Subscription::decode(bytes.as_slice()), Some(s));
}

#[test]
fn subscription_decode_rejects_truncation() {
    let s = Subscription {
        id: FeedId(11),
        created_at: 1000,
        feed_id: FeedId(11),
        title: "t".to_string(),
        feed_url: "u".to_string(),
        site_url: "v".to_string(),
    };
    let mut bytes = s.encode();
    bytes.truncate(bytes.len() - 1);
    assert_eq!(Subscription::decode(bytes.as_slice()), None);
}

#[test]
fn tagging_roundtrip() {
    let t = Tagging { id: TaggingId(3), feed_id: FeedId(11), name: "tech".to_string() };
    let bytes = t.encode();
    assert_eq!(Tagging::decode(bytes.as_slice()), Some(t));
}

#[test]
fn tagging_decode_rejects_invalid_utf8() {
    let t = Tagging { id: TaggingId(3), feed_id: FeedId(11), name: "é".to_string() };
    let mut bytes = t.encode();
    // corrupt the text payload: "é" encodes as two bytes at the tail
    let n = bytes.len();
    bytes[n - 2] = 0xFF;
    bytes[n - 1] = 0xFF;
    assert_eq!(Tagging::decode(bytes.as_slice()), None);
}
