use feedcore::feed::{Channel, Feed, Guid, Item};
use feedcore::ids::{EntryId, FeedId, TaggingId};
use feedcore::refresh::{add_subscription_and_ingest, refresh_all_feeds, refresh_feed, FetchResult};
use feedcore::repo::Repo;
use feedcore::types::{Subscription, Tagging};

fn open_repo(name: &str) -> Repo {
    // a fresh directory for every run, so earlier runs leave no rows behind
    let nanos = std::time::SystemTime::now()
        .duration_since(std::time::UNIX_EPOCH)
        .unwrap()
        .as_nanos();
    let path = format!("/tmp/feedcore_test_dbs/{}_{}", name, nanos);
    Repo::new(&path).expect("the database opens")
}

fn item(guid: &str, published: Option<i64>) -> Item {
    Item {
        title: Some(format!("title of {}", guid)),
        link: Some(format!("https://example.org/{}", guid)),
        description: Some("desc".to_string()),
        author: None,
        enclosure: None,
        guid: Some(Guid { value: guid.to_string(), is_perma_link: false }),
        pub_date: published,
        content: None,
        content_encoded: None,
        media_content: Vec::new(),
    }
}

fn feed_of(items: Vec<Item>) -> Feed {
    Feed {
        channel: Channel {
            title: "F".to_string(),
            link: "https://example.org".to_string(),
            description: "d".to_string(),
            language: None,
            items,
        },
    }
}

const T_A: i64 = 1672531200; // 2023-01-01
const T_B: i64 = 1685577600; // 2023-06-01

#[test]
fn ingestion_is_idempotent() {
    let mut repo = open_repo("idempotent");
    let feed = feed_of(vec![item("a", Some(T_A)), item("b", Some(T_B))]);
    refresh_feed(&mut repo, FeedId(1), &feed, 10).unwrap();
    let entries = repo.get_entries(1, 10, &Vec::new()).unwrap();
    let unread = repo.get_unread().unwrap();
    assert_eq!(entries.len(), 2);
    assert_eq!(unread.len(), 2);
    // re-running ingestion against identical content is a no-op: both
    // collections keep their size and ids, and the stored rows are
    // untouched — created_at still comes from the first run
    refresh_feed(&mut repo, FeedId(1), &feed, 999).unwrap();
    let entries2 = repo.get_entries(1, 10, &Vec::new()).unwrap();
    let unread2 = repo.get_unread().unwrap();
    assert_eq!(entries2, entries);
    assert_eq!(unread2, unread);
    assert!(entries2.iter().all(|e| e.created_at == 10));
}

#[test]
fn ingestion_is_idempotent_without_publish_time() {
    let mut repo = open_repo("idempotent_epoch");
    let feed = feed_of(vec![item("only", None)]);
    refresh_feed(&mut repo, FeedId(1), &feed, 1).unwrap();
    refresh_feed(&mut repo, FeedId(1), &feed, 2).unwrap();
    assert_eq!(repo.get_entries(1, 10, &Vec::new()).unwrap().len(), 1);
    assert_eq!(repo.get_unread().unwrap().len(), 1);
}

#[test]
fn reingestion_never_mutates_a_stored_entry() {
    let mut repo = open_repo("never_mutated");
    refresh_feed(&mut repo, FeedId(1), &feed_of(vec![item("a", Some(T_A))]), 10).unwrap();
    let first = repo.get_entries(1, 10, &Vec::new()).unwrap();
    // the same identity arrives again with different content: the row
    // created first stays exactly as it was
    let mut changed = item("a", Some(T_A));
    changed.title = Some("rewritten title".to_string());
    changed.description = Some("rewritten".to_string());
    refresh_feed(&mut repo, FeedId(1), &feed_of(vec![changed]), 999).unwrap();
    let after = repo.get_entries(1, 10, &Vec::new()).unwrap();
    assert_eq!(after, first);
    assert_eq!(after[0].title.as_deref(), Some("title of a"));
}

#[test]
fn entries_come_back_newest_first() {
    let mut repo = open_repo("chronological");
    let feed = feed_of(vec![item("a", Some(T_A)), item("b", Some(T_B))]);
    refresh_feed(&mut repo, FeedId(1), &feed, 0).unwrap();
    let entries = repo.get_entries(1, 10, &Vec::new()).unwrap();
    assert_eq!(entries.len(), 2);
    assert_eq!(entries[0].published, T_B);
    assert_eq!(entries[1].published, T_A);
    assert!(entries[0].id.0 > entries[1].id.0);
}

#[test]
fn pagination_boundaries() {
    let mut repo = open_repo("pagination");
    let feed = feed_of(vec![
        item("a", Some(T_A)),
        item("b", Some(T_B)),
        item("c", Some(T_B + 86400)),
    ]);
    refresh_feed(&mut repo, FeedId(1), &feed, 0).unwrap();
    // page beyond the data is empty, not an error
    assert_eq!(repo.get_entries(4, 2, &Vec::new()).unwrap().len(), 0);
    assert_eq!(repo.get_entries(1000, 1000, &Vec::new()).unwrap().len(), 0);
    // page 0 is read as page 1
    let p0 = repo.get_entries(0, 2, &Vec::new()).unwrap();
    let p1 = repo.get_entries(1, 2, &Vec::new()).unwrap();
    assert_eq!(p0, p1);
    assert_eq!(p1.len(), 2);
    // the second page holds the remainder
    let p2 = repo.get_entries(2, 2, &Vec::new()).unwrap();
    assert_eq!(p2.len(), 1);
    assert_eq!(p2[0].published, T_A);
}

#[test]
fn tag_filter_selects_tagged_feeds_only() {
    let mut repo = open_repo("tag_filter");
    refresh_feed(&mut repo, FeedId(1), &feed_of(vec![item("tech-post", Some(T_A))]), 0).unwrap();
    refresh_feed(&mut repo, FeedId(2), &feed_of(vec![item("other-post", Some(T_B))]), 0).unwrap();
    let tagging = Tagging { id: TaggingId(100), feed_id: FeedId(1), name: "tech".to_string() };
    repo.add_tagging(&tagging).unwrap();
    let tags = vec!["tech".to_string()];
    let filtered = repo.get_entries(1, 10, &tags).unwrap();
    assert_eq!(filtered.len(), 1);
    assert_eq!(filtered[0].feed_id, FeedId(1));
    // a tag nobody carries selects nothing
    let none = repo.get_entries(1, 10, &vec!["sports".to_string()]).unwrap();
    assert_eq!(none.len(), 0);
    // without tags, both feeds' entries appear
    assert_eq!(repo.get_entries(1, 10, &Vec::new()).unwrap().len(), 2);
}

#[test]
fn three_subscriptions_one_failed_fetch() {
    let mut repo = open_repo("partial_failure");
    let results = vec![
        FetchResult { feed_id: FeedId(1), feed: Some(feed_of(vec![item("a1", Some(T_A))])) },
        FetchResult { feed_id: FeedId(2), feed: None },
        FetchResult {
            feed_id: FeedId(3),
            feed: Some(feed_of(vec![item("c1", Some(T_B)), item("c2", Some(T_B + 60))])),
        },
    ];
    refresh_all_feeds(&mut repo, &results, 0).unwrap();
    let entries = repo.get_entries(1, 10, &Vec::new()).unwrap();
    assert_eq!(entries.len(), 3);
    assert!(entries.iter().all(|e| e.feed_id == FeedId(1) || e.feed_id == FeedId(3)));
}

#[test]
fn starred_survives_entry_deletion() {
    let mut repo = open_repo("orphan");
    let feed = feed_of(vec![item("a", Some(T_A)), item("b", Some(T_B))]);
    refresh_feed(&mut repo, FeedId(1), &feed, 0).unwrap();
    let ids: Vec<EntryId> = repo.get_unread().unwrap();
    assert_eq!(ids.len(), 2);
    repo.add_starred(&ids).unwrap();
    assert_eq!(repo.get_starred_entries(1, 10).unwrap().len(), 2);
    // delete one entry row out-of-band; the dangling star is dropped silently
    repo.delete_entry(ids[0]).unwrap();
    let left = repo.get_starred_entries(1, 10).unwrap();
    assert_eq!(left.len(), 1);
    assert_ne!(left[0].id, ids[0]);
    // the star itself is still recorded
    assert_eq!(repo.get_starred().unwrap().len(), 2);
}

#[test]
fn unread_marks_add_and_clear() {
    let mut repo = open_repo("unread_marks");
    let feed = feed_of(vec![item("a", Some(T_A)), item("b", Some(T_B))]);
    refresh_feed(&mut repo, FeedId(1), &feed, 0).unwrap();
    let ids = repo.get_unread().unwrap();
    assert_eq!(ids.len(), 2);
    repo.delete_unread(&ids).unwrap();
    assert_eq!(repo.get_unread().unwrap().len(), 0);
    repo.add_unread(&ids).unwrap();
    // re-adding the same ids twice keeps one mark per id
    repo.add_unread(&ids).unwrap();
    let back = repo.get_unread().unwrap();
    assert_eq!(back.len(), 2);
    // keys come back ascending
    assert!(back[0].0 < back[1].0);
}

#[test]
fn starred_marks_add_and_clear() {
    let mut repo = open_repo("starred_marks");
    let ids = vec![EntryId(5), EntryId(1)];
    repo.add_starred(&ids).unwrap();
    let got = repo.get_starred().unwrap();
    assert_eq!(got, vec![EntryId(1), EntryId(5)]);
    repo.delete_starred(&vec![EntryId(1)]).unwrap();
    assert_eq!(repo.get_starred().unwrap(), vec![EntryId(5)]);
}

#[test]
fn subscriptions_crud() {
    let mut repo = open_repo("subscriptions");
    let sub = Subscription {
        id: FeedId(4),
        created_at: 9,
        feed_id: FeedId(4),
        title: "t".to_string(),
        feed_url: "https://example.org/feed.xml".to_string(),
        site_url: "https://example.org".to_string(),
    };
    repo.add_subscription(&sub).unwrap();
    // duplicate subscriptions to the same address are permitted
    let dup = Subscription { id: FeedId(5), feed_id: FeedId(5), ..sub.clone() };
    repo.add_subscription(&dup).unwrap();
    let subs = repo.get_subscriptions().unwrap();
    assert_eq!(subs.len(), 2);
    assert_eq!(subs[0], sub);
    assert_eq!(subs[1], dup);
    repo.delete_subscription(FeedId(4)).unwrap();
    let left = repo.get_subscriptions().unwrap();
    assert_eq!(left.len(), 1);
    assert_eq!(left[0].feed_id, FeedId(5));
}

#[test]
fn deleting_a_subscription_keeps_its_entries() {
    let mut repo = open_repo("no_cascade");
    let feed = feed_of(vec![item("a", Some(T_A))]);
    let sub = add_subscription_and_ingest(&mut repo, &feed, "https://example.org/feed.xml", 1)
        .unwrap();
    assert_eq!(repo.get_entries(1, 10, &Vec::new()).unwrap().len(), 1);
    repo.delete_subscription(sub.feed_id).unwrap();
    assert_eq!(repo.get_subscriptions().unwrap().len(), 0);
    // entries remain readable after the subscription is gone
    assert_eq!(repo.get_entries(1, 10, &Vec::new()).unwrap().len(), 1);
}

#[test]
fn subscribe_and_ingest_makes_first_page_available() {
    let mut repo = open_repo("subscribe_ingest");
    let feed = feed_of(vec![item("a", Some(T_A)), item("b", Some(T_B))]);
    let sub = add_subscription_and_ingest(&mut repo, &feed, "https://example.org/feed.xml", 77)
        .unwrap();
    assert_eq!(sub.title, "F");
    assert_eq!(sub.feed_url, "https://example.org/feed.xml");
    assert_eq!(sub.site_url, "https://example.org");
    assert_eq!(sub.created_at, 77);
    assert_eq!(repo.get_subscriptions().unwrap().len(), 1);
    assert_eq!(repo.get_entries(1, 10, &Vec::new()).unwrap().len(), 2);
}

#[test]
fn taggings_crud() {
    let mut repo = open_repo("taggings");
    let id = repo.new_tagging_id().unwrap();
    let t = Tagging::new(id, FeedId(1), "tech");
    repo.add_tagging(&t).unwrap();
    let all = repo.get_taggings().unwrap();
    assert_eq!(all.len(), 1);
    assert_eq!(all[0].name, "tech");
    assert_eq!(all[0].feed_id, FeedId(1));
    repo.delete_tagging(id).unwrap();
    assert_eq!(repo.get_taggings().unwrap().len(), 0);
}

#[test]
fn fresh_ids_differ() {
    let mut repo = open_repo("fresh_ids");
    let a = repo.new_feed_id().unwrap();
    let b = repo.new_feed_id().unwrap();
    assert_ne!(a.0, b.0);
    let c = repo.new_tagging_id().unwrap();
    assert_ne!(b.0, c.0);
}

#[test]
fn starred_entries_paginate_in_reverse_key_order() {
    let mut repo = open_repo("starred_pages");
    let feed = feed_of(vec![
        item("a", Some(T_A)),
        item("b", Some(T_B)),
        item("c", Some(T_B + 86400)),
    ]);
    refresh_feed(&mut repo, FeedId(1), &feed, 0).unwrap();
    let ids = repo.get_unread().unwrap();
    repo.add_starred(&ids).unwrap();
    let p1 = repo.get_starred_entries(1, 2).unwrap();
    let p2 = repo.get_starred_entries(2, 2).unwrap();
    assert_eq!(p1.len(), 2);
    assert_eq!(p2.len(), 1);
    assert!(p1[0].id.0 > p1[1].id.0);
    assert!(p1[1].id.0 > p2[0].id.0);
    assert_eq!(repo.get_starred_entries(3, 2).unwrap().len(), 0);
}

#[test]
fn empty_repository_reads_are_empty() {
    let repo = open_repo("empty_reads");
    assert_eq!(repo.get_entries(1, 10, &Vec::new()).unwrap().len(), 0);
    assert_eq!(repo.get_starred_entries(1, 10).unwrap().len(), 0);
    assert_eq!(repo.get_unread().unwrap().len(), 0);
    assert_eq!(repo.get_subscriptions().unwrap().len(), 0);
    assert_eq!(repo.get_taggings().unwrap().len(), 0);
}

#[test]
fn zero_per_page_gives_an_empty_page() {
    let mut repo = open_repo("zero_per_page");
    refresh_feed(&mut repo, FeedId(1), &feed_of(vec![item("a", Some(T_A))]), 0).unwrap();
    assert_eq!(repo.get_entries(1, 0, &Vec::new()).unwrap().len(), 0);
}

#[test]
fn a_page_number_at_the_numeric_limit_is_just_empty() {
    let mut repo = open_repo("huge_page");
    refresh_feed(&mut repo, FeedId(1), &feed_of(vec![item("a", Some(T_A))]), 0).unwrap();
    assert_eq!(repo.get_entries(usize::MAX, 2, &Vec::new()).unwrap().len(), 0);
    assert_eq!(repo.get_starred_entries(usize::MAX, usize::MAX).unwrap().len(), 0);
}

#[test]
fn opening_an_impossible_path_reports_an_engine_error() {
    let r = Repo::new("/dev/null/not-a-directory");
    assert!(matches!(r, Err(feedcore::store::StoreError::Engine(_))));
}

#[test]
fn flush_succeeds() {
    let mut repo = open_repo("flush");
    let feed = feed_of(vec![item("a", Some(T_A))]);
    refresh_feed(&mut repo, FeedId(1), &feed, 0).unwrap();
    repo.flush().unwrap();
}
