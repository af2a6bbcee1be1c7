//! The ingestion pipeline's merge step: items of fetched feeds are turned
//! into entries and stored idempotently, one feed's failed fetch never
//! touching what another feed ingests. Fetching and parsing themselves are
//! the HTTP client's and the parser's work, outside this library; the
//! functions here take their output.

use crate::ids::FeedId;
use crate::repo::{entries_after_insert, unread_after_insert, views_of, Repo};
use crate::store::StoreError;
use crate::types::{
    spec_entry_of_item, spec_item_ident, Entry, Subscription, SubscriptionV,
};
use crate::feed::{Feed, FeedV, ItemV};
use vstd::prelude::*;

verus! {

/// The entry and unread contents after ingesting one item: an item without
/// a derivable identity is skipped, any other becomes an entry.
pub open spec fn apply_item(
    pair: (Map<u64, Seq<u8>>, Map<u64, Seq<u8>>),
    feed_id: u64,
    item: ItemV,
    created_at: i64,
) -> (Map<u64, Seq<u8>>, Map<u64, Seq<u8>>) {
    match spec_item_ident(item) {
        Some(_) => {
            let e = spec_entry_of_item(feed_id, item, created_at);
            (entries_after_insert(pair.0, e), unread_after_insert(pair.0, pair.1, e))
        },
        None => pair,
    }
}

/// The entry and unread contents after ingesting a feed's items in order.
pub open spec fn ingest_items(
    pair: (Map<u64, Seq<u8>>, Map<u64, Seq<u8>>),
    feed_id: u64,
    items: Seq<ItemV>,
    created_at: i64,
) -> (Map<u64, Seq<u8>>, Map<u64, Seq<u8>>)
    decreases items.len(),
{
    if items.len() == 0 {
        pair
    } else {
        ingest_items(
            apply_item(pair, feed_id, items[0], created_at),
            feed_id,
            items.drop_first(),
            created_at,
        )
    }
}

/// Ingesting one more item at the end applies it to the state the earlier
/// items produced.
proof fn lemma_ingest_items_push(
    pair: (Map<u64, Seq<u8>>, Map<u64, Seq<u8>>),
    feed_id: u64,
    items: Seq<ItemV>,
    x: ItemV,
    created_at: i64,
)
    ensures
        ingest_items(pair, feed_id, items.push(x), created_at) == apply_item(
            ingest_items(pair, feed_id, items, created_at),
            feed_id,
            x,
            created_at,
        ),
    decreases items.len(),
{
    if items.len() == 0 {
        assert(items.push(x)[0] == x);
        assert(items.push(x).drop_first() =~= Seq::<ItemV>::empty());
        let p1 = apply_item(pair, feed_id, x, created_at);
        assert(ingest_items(pair, feed_id, items, created_at) == pair);
        assert(ingest_items(p1, feed_id, Seq::<ItemV>::empty(), created_at) == p1);
        assert(ingest_items(pair, feed_id, items.push(x), created_at) == ingest_items(
            p1,
            feed_id,
            items.push(x).drop_first(),
            created_at,
        ));
    } else {
        assert(items.push(x)[0] == items[0]);
        assert(items.push(x).drop_first() =~= items.drop_first().push(x));
        let p1 = apply_item(pair, feed_id, items[0], created_at);
        lemma_ingest_items_push(p1, feed_id, items.drop_first(), x, created_at);
        assert(ingest_items(pair, feed_id, items.push(x), created_at) == ingest_items(
            p1,
            feed_id,
            items.drop_first().push(x),
            created_at,
        ));
        assert(ingest_items(pair, feed_id, items, created_at) == ingest_items(
            p1,
            feed_id,
            items.drop_first(),
            created_at,
        ));
    }
}

/// Ingests every item of one fetched feed. Each item with a derivable
/// identity is stored under its content-derived id, marked unread exactly
/// when new; identity-less items are skipped. Each item is its own atomic
/// unit: a storage error aborts the remainder of this feed, and what stands
/// then is exactly the ingestion of some prefix of the items — everything
/// stored before the failure stays stored.
pub fn refresh_feed(repo: &mut Repo, id: FeedId, feed: &Feed, created_at: i64) -> (r: Result<
    (),
    StoreError,
>)
    ensures
        r is Ok ==> (final(repo).entries_map(), final(repo).unread_map()) == ingest_items(
            (old(repo).entries_map(), old(repo).unread_map()),
            id.0,
            feed@.channel.items,
            created_at,
        ),
        r is Err ==> exists|k: int|
            #![trigger feed@.channel.items.take(k)]
            0 <= k <= feed@.channel.items.len() && (
            final(repo).entries_map(),
            final(repo).unread_map(),
            ) == ingest_items(
                (old(repo).entries_map(), old(repo).unread_map()),
                id.0,
                feed@.channel.items.take(k),
                created_at,
            ),
        final(repo).subs_map() == old(repo).subs_map(),
        final(repo).starred_map() == old(repo).starred_map(),
        final(repo).taggings_map() == old(repo).taggings_map(),
        final(repo).issued() == old(repo).issued(),
{
    let ghost pair0 = (repo.entries_map(), repo.unread_map());
    let ghost subs0 = repo.subs_map();
    let ghost starred0 = repo.starred_map();
    let ghost taggings0 = repo.taggings_map();
    let ghost issued0 = repo.issued();
    let ghost itemsv = feed@.channel.items;
    let mut i: usize = 0;
    while i < feed.channel.items.len()
        invariant
            i <= feed.channel.items@.len(),
            itemsv == feed@.channel.items,
            itemsv.len() == feed.channel.items@.len(),
            pair0 == (old(repo).entries_map(), old(repo).unread_map()),
            subs0 == old(repo).subs_map(),
            starred0 == old(repo).starred_map(),
            taggings0 == old(repo).taggings_map(),
            issued0 == old(repo).issued(),
            (repo.entries_map(), repo.unread_map()) == ingest_items(
                pair0,
                id.0,
                itemsv.take(i as int),
                created_at,
            ),
            repo.subs_map() == subs0,
            repo.starred_map() == starred0,
            repo.taggings_map() == taggings0,
            repo.issued() == issued0,
        decreases feed.channel.items@.len() - i,
    {
        let item = &feed.channel.items[i];
        proof {
            assert(item@ == itemsv[i as int]);
            assert(itemsv.take(i + 1) =~= itemsv.take(i as int).push(itemsv[i as int]));
            lemma_ingest_items_push(pair0, id.0, itemsv.take(i as int), itemsv[i as int], created_at);
        }
        match Entry::from_item(id, item, created_at) {
            Some(entry) => {
                match repo.insert_entry(&entry) {
                    Ok(_) => (),
                    Err(e) => {
                        proof {
                            assert((repo.entries_map(), repo.unread_map()) == ingest_items(
                                pair0,
                                id.0,
                                itemsv.take(i as int),
                                created_at,
                            ));
                        }
                        return Err(e);
                    },
                }
            },
            None => (),
        }
        i = i + 1;
    }
    proof {
        assert(itemsv.take(itemsv.len() as int) =~= itemsv);
    }
    Ok(())
}

/// What one subscription's fetch produced: its parsed feed, or nothing
/// when the fetch or the parse failed.
pub struct FetchResult {
    pub feed_id: FeedId,
    pub feed: Option<Feed>,
}

pub struct FetchResultV {
    pub feed_id: u64,
    pub feed: Option<FeedV>,
}

impl View for FetchResult {
    type V = FetchResultV;

    open spec fn view(&self) -> FetchResultV {
        FetchResultV {
            feed_id: self.feed_id.0,
            feed: match self.feed {
                Some(f) => Some(f@),
                None => None,
            },
        }
    }
}

/// The entry and unread contents after one refresh cycle over the fetch
/// results, in order: each fetched feed is ingested, each failed fetch is
/// skipped.
pub open spec fn refresh_fold(
    pair: (Map<u64, Seq<u8>>, Map<u64, Seq<u8>>),
    results: Seq<FetchResultV>,
    created_at: i64,
) -> (Map<u64, Seq<u8>>, Map<u64, Seq<u8>>)
    decreases results.len(),
{
    if results.len() == 0 {
        pair
    } else {
        let step = match results[0].feed {
            Some(f) => ingest_items(pair, results[0].feed_id, f.channel.items, created_at),
            None => pair,
        };
        refresh_fold(step, results.drop_first(), created_at)
    }
}

proof fn lemma_refresh_fold_push(
    pair: (Map<u64, Seq<u8>>, Map<u64, Seq<u8>>),
    results: Seq<FetchResultV>,
    x: FetchResultV,
    created_at: i64,
)
    ensures
        refresh_fold(pair, results.push(x), created_at) == (match x.feed {
            Some(f) => ingest_items(
                refresh_fold(pair, results, created_at),
                x.feed_id,
                f.channel.items,
                created_at,
            ),
            None => refresh_fold(pair, results, created_at),
        }),
    decreases results.len(),
{
    if results.len() == 0 {
        assert(results.push(x)[0] == x);
        assert(results.push(x).drop_first() =~= Seq::<FetchResultV>::empty());
        let p1 = match x.feed {
            Some(f) => ingest_items(pair, x.feed_id, f.channel.items, created_at),
            None => pair,
        };
        assert(refresh_fold(pair, results, created_at) == pair);
        assert(refresh_fold(p1, Seq::<FetchResultV>::empty(), created_at) == p1);
        assert(refresh_fold(pair, results.push(x), created_at) == refresh_fold(
            p1,
            results.push(x).drop_first(),
            created_at,
        ));
    } else {
        assert(results.push(x)[0] == results[0]);
        assert(results.push(x).drop_first() =~= results.drop_first().push(x));
        let step = match results[0].feed {
            Some(f) => ingest_items(pair, results[0].feed_id, f.channel.items, created_at),
            None => pair,
        };
        lemma_refresh_fold_push(step, results.drop_first(), x, created_at);
        assert(refresh_fold(pair, results.push(x), created_at) == refresh_fold(
            step,
            results.drop_first().push(x),
            created_at,
        ));
        assert(refresh_fold(pair, results, created_at) == refresh_fold(
            step,
            results.drop_first(),
            created_at,
        ));
    }
}

/// Merges one refresh cycle's fetch results into storage. Each result is
/// independent: a failed fetch is skipped and delays nothing else, so the
/// remaining feeds are ingested in full. A storage error aborts the cycle
/// and is surfaced, never swallowed.
pub fn refresh_all_feeds(repo: &mut Repo, results: &Vec<FetchResult>, created_at: i64) -> (r:
    Result<(), StoreError>)
    ensures
        r is Ok ==> (final(repo).entries_map(), final(repo).unread_map()) == refresh_fold(
            (old(repo).entries_map(), old(repo).unread_map()),
            views_of(results@),
            created_at,
        ),
        (forall|i: int|
            0 <= i < results@.len() ==> (#[trigger] views_of(results@)[i]).feed is None) ==> r
            is Ok,
        r is Err ==> exists|k: int, j: int|
            #![trigger views_of(results@)[k].feed->0.channel.items.take(j)]
            0 <= k < results@.len() && views_of(results@)[k].feed is Some && 0 <= j <= views_of(
                results@,
            )[k].feed->0.channel.items.len() && (
            final(repo).entries_map(),
            final(repo).unread_map(),
            ) == ingest_items(
                refresh_fold(
                    (old(repo).entries_map(), old(repo).unread_map()),
                    views_of(results@).take(k),
                    created_at,
                ),
                views_of(results@)[k].feed_id,
                views_of(results@)[k].feed->0.channel.items.take(j),
                created_at,
            ),
        final(repo).subs_map() == old(repo).subs_map(),
        final(repo).starred_map() == old(repo).starred_map(),
        final(repo).taggings_map() == old(repo).taggings_map(),
        final(repo).issued() == old(repo).issued(),
{
    let ghost pair0 = (repo.entries_map(), repo.unread_map());
    let ghost subs0 = repo.subs_map();
    let ghost starred0 = repo.starred_map();
    let ghost taggings0 = repo.taggings_map();
    let ghost issued0 = repo.issued();
    let ghost rv = views_of(results@);
    let mut i: usize = 0;
    while i < results.len()
        invariant
            i <= results@.len(),
            rv == views_of(results@),
            rv.len() == results@.len(),
            pair0 == (old(repo).entries_map(), old(repo).unread_map()),
            subs0 == old(repo).subs_map(),
            starred0 == old(repo).starred_map(),
            taggings0 == old(repo).taggings_map(),
            issued0 == old(repo).issued(),
            (repo.entries_map(), repo.unread_map()) == refresh_fold(
                pair0,
                rv.take(i as int),
                created_at,
            ),
            repo.subs_map() == subs0,
            repo.starred_map() == starred0,
            repo.taggings_map() == taggings0,
            repo.issued() == issued0,
        decreases results@.len() - i,
    {
        let res = &results[i];
        proof {
            assert(res@ == rv[i as int]);
            assert(rv.take(i + 1) =~= rv.take(i as int).push(rv[i as int]));
            lemma_refresh_fold_push(pair0, rv.take(i as int), rv[i as int], created_at);
        }
        match &res.feed {
            Some(feed) => {
                match refresh_feed(repo, res.feed_id, feed, created_at) {
                    Ok(_) => (),
                    Err(e) => {
                        proof {
                            assert(rv[i as int].feed is Some);
                            assert(rv[i as int].feed->0 == feed@);
                            let j = choose|j: int|
                                #![trigger feed@.channel.items.take(j)]
                                0 <= j <= feed@.channel.items.len() && (
                                repo.entries_map(),
                                repo.unread_map(),
                                ) == ingest_items(
                                    refresh_fold(pair0, rv.take(i as int), created_at),
                                    rv[i as int].feed_id,
                                    feed@.channel.items.take(j),
                                    created_at,
                                );
                            assert(rv[i as int].feed->0.channel.items.take(j)
                                == feed@.channel.items.take(j));
                        }
                        return Err(e);
                    },
                }
            },
            None => (),
        }
        i = i + 1;
    }
    proof {
        assert(rv.take(rv.len() as int) =~= rv);
    }
    Ok(())
}

/// A failed fetch is isolated: slipping it into a cycle's results anywhere
/// leaves the cycle's outcome exactly as it was without it.
pub proof fn lemma_failed_fetch_isolated(
    pair: (Map<u64, Seq<u8>>, Map<u64, Seq<u8>>),
    results: Seq<FetchResultV>,
    i: int,
    feed_id: u64,
    created_at: i64,
)
    requires
        0 <= i <= results.len(),
    ensures
        refresh_fold(
            pair,
            results.insert(i, FetchResultV { feed_id, feed: None }),
            created_at,
        ) == refresh_fold(pair, results, created_at),
    decreases results.len(),
{
    let failed = FetchResultV { feed_id, feed: None };
    let inserted = results.insert(i, failed);
    if i == 0 {
        assert(inserted[0] == failed);
        assert(inserted.drop_first() =~= results);
    } else {
        assert(inserted[0] == results[0]);
        assert(inserted.drop_first() =~= results.drop_first().insert(i - 1, failed));
        let step = match results[0].feed {
            Some(f) => ingest_items(pair, results[0].feed_id, f.channel.items, created_at),
            None => pair,
        };
        lemma_failed_fetch_isolated(step, results.drop_first(), i - 1, feed_id, created_at);
    }
}

/// The subscription row a fetched feed produces.
pub open spec fn spec_sub_of_feed(id: u64, feed: FeedV, url: Seq<char>, created_at: i64) -> SubscriptionV {
    SubscriptionV {
        id: id,
        feed_id: id,
        created_at: created_at,
        title: feed.channel.title,
        feed_url: url,
        site_url: feed.channel.link,
    }
}

/// Subscribes to a freshly fetched feed: draws a feed id, stores the
/// subscription, ingests the fetched content at once so the first page of
/// entries needs no further cycle, and flushes durability before returning
/// the created subscription.
pub fn add_subscription_and_ingest(
    repo: &mut Repo,
    feed: &Feed,
    feed_url: &str,
    created_at: i64,
) -> (r: Result<Subscription, StoreError>)
    ensures
        match r {
            Ok(sub) => {
                &&& sub@ == spec_sub_of_feed(sub.id.0, feed@, feed_url@, created_at)
                &&& !old(repo).issued().contains(sub.id.0)
                &&& final(repo).issued() == old(repo).issued().insert(sub.id.0)
                &&& final(repo).subs_map() == old(repo).subs_map().insert(
                    sub.id.0,
                    crate::types::enc_subscription(sub@),
                )
                &&& (final(repo).entries_map(), final(repo).unread_map()) == ingest_items(
                    (old(repo).entries_map(), old(repo).unread_map()),
                    sub.id.0,
                    feed@.channel.items,
                    created_at,
                )
            },
            Err(_) => true,
        },
        final(repo).starred_map() == old(repo).starred_map(),
        final(repo).taggings_map() == old(repo).taggings_map(),
{
    let id = match repo.new_feed_id() {
        Ok(id) => id,
        Err(e) => {
            return Err(e);
        },
    };
    let sub = Subscription::from_feed(id, feed, feed_url, created_at);
    match repo.add_subscription(&sub) {
        Ok(_) => (),
        Err(e) => {
            return Err(e);
        },
    }
    match refresh_feed(repo, id, feed, created_at) {
        Ok(_) => (),
        Err(e) => {
            return Err(e);
        },
    }
    match repo.flush() {
        Ok(_) => (),
        Err(e) => {
            return Err(e);
        },
    }
    Ok(sub)
}

} // verus!
