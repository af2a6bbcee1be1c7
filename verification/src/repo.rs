//! The repository: owns the named collections (`subs`, `unread`, `starred`,
//! `entries`, `taggings`) and enforces the cross-collection rules — an entry
//! gains an unread mark exactly when it did not already exist, reads are
//! reverse-chronological and taggable, and deleting a subscription never
//! touches its entries.

use crate::ids::{EntryId, FeedId, TaggingId};
use crate::store::{issued_ids, kv_rows_wf, kvs_view, tree_entries, Store, StoreError, StoreTree};
use crate::types::{
    dec_entry, dec_subscription, dec_tagging, enc_entry, enc_subscription, enc_tagging, Entry,
    EntryV, Subscription, SubscriptionV, Tagging, TaggingV,
};
use vstd::prelude::*;

verus! {

// ---------------------------------------------------------------------------
// Canonical rows of a collection
// ---------------------------------------------------------------------------
/// The rows of a collection in ascending key order. Meaningful whenever a
/// matching row list exists; `lemma_rows_unique` shows there is only one.
pub open spec fn tree_rows(m: Map<u64, Seq<u8>>) -> Seq<(u64, Seq<u8>)> {
    choose|s: Seq<(u64, Seq<u8>)>| kv_rows_wf(s, m)
}

/// The ascending keys of a collection.
pub open spec fn tree_keys(m: Map<u64, Seq<u8>>) -> Seq<u64> {
    tree_rows(m).map_values(|kv: (u64, Seq<u8>)| kv.0)
}

/// Two row lists of the same contents are the same list.
pub proof fn lemma_rows_unique(
    a: Seq<(u64, Seq<u8>)>,
    b: Seq<(u64, Seq<u8>)>,
    m: Map<u64, Seq<u8>>,
)
    requires
        kv_rows_wf(a, m),
        kv_rows_wf(b, m),
    ensures
        a == b,
    decreases a.len(),
{
    if a.len() == 0 {
        if b.len() > 0 {
            assert(m.contains_key(b[0].0));
            assert(false);
        }
        assert(a =~= b);
    } else {
        let la = a.len() - 1;
        let lb = b.len() - 1;
        let ka = a[la as int].0;
        assert(m.contains_key(ka));
        let ib = choose|i: int| 0 <= i < b.len() && b[i].0 == ka;
        assert(0 <= ib <= lb && b[ib].0 == ka);
        if ib < lb {
            assert(b[ib].0 < b[lb as int].0);
            assert(m.contains_key(b[lb as int].0));
            let ja = choose|i: int| 0 <= i < a.len() && a[i].0 == b[lb as int].0;
            assert(0 <= ja < a.len() && a[ja].0 == b[lb as int].0);
            if ja < la {
                assert(a[ja].0 < a[la as int].0);
            }
            assert(false);
        }
        assert(b[lb as int].0 == ka);
        assert(a[la as int].1 == m[ka] && b[lb as int].1 == m[ka]);
        let m2 = m.remove(ka);
        let a2 = a.drop_last();
        let b2 = b.drop_last();
        lemma_rows_wf_drop_last(a, m);
        lemma_rows_wf_drop_last(b, m);
        assert(m.remove(a[la as int].0) == m2 && m.remove(b[lb as int].0) == m2);
        lemma_rows_unique(a2, b2, m2);
        assert forall|i: int| 0 <= i < a.len() implies a[i] == b[i] by {
            if i < la {
                assert(a2[i] == a[i] && b2[i] == b[i]);
            }
        }
        assert(a =~= b);
    }
}

/// Dropping the greatest-keyed row leaves the rows of the contents without
/// that key.
proof fn lemma_rows_wf_drop_last(a: Seq<(u64, Seq<u8>)>, m: Map<u64, Seq<u8>>)
    requires
        kv_rows_wf(a, m),
        a.len() > 0,
    ensures
        kv_rows_wf(a.drop_last(), m.remove(a[a.len() - 1].0)),
{
    let la = a.len() - 1;
    let ka = a[la as int].0;
    let m2 = m.remove(ka);
    let a2 = a.drop_last();
    assert(forall|i: int| 0 <= i < a2.len() ==> a2[i] == a[i]);
    assert forall|i: int| 0 <= i < a2.len() implies m2.contains_key(#[trigger] a2[i].0)
        && a2[i].1 == m2[a2[i].0] by {
        assert(a[i].0 < ka);
        assert(m.contains_key(a[i].0) && a[i].1 == m[a[i].0]);
    }
    assert forall|k: u64| #[trigger] m2.contains_key(k) implies exists|i: int|
        0 <= i < a2.len() && a2[i].0 == k by {
        assert(m.contains_key(k));
        let i = choose|i: int| 0 <= i < a.len() && a[i].0 == k;
        assert(k != ka);
        assert(i != la);
        assert(a2[i] == a[i] && a2[i].0 == k);
    }
}

/// Any witness list of a collection's rows is the canonical one.
pub proof fn lemma_rows_canonical(rows: Seq<(u64, Seq<u8>)>, m: Map<u64, Seq<u8>>)
    requires
        kv_rows_wf(rows, m),
    ensures
        tree_rows(m) == rows,
        kv_rows_wf(tree_rows(m), m),
{
    assert(kv_rows_wf(tree_rows(m), m)) by {
        assert(exists|s: Seq<(u64, Seq<u8>)>| kv_rows_wf(s, m)) by {
            assert(kv_rows_wf(rows, m));
        }
    }
    lemma_rows_unique(tree_rows(m), rows, m);
}

// ---------------------------------------------------------------------------
// Decoded views of the collections
// ---------------------------------------------------------------------------
/// The views of a list of values.
pub open spec fn views_of<T: View>(s: Seq<T>) -> Seq<T::V> {
    s.map_values(|x: T| x@)
}

/// Every stored entry row decodes, and its id is its key.
pub open spec fn entries_wf(m: Map<u64, Seq<u8>>) -> bool {
    forall|k: u64| #[trigger]
        m.contains_key(k) ==> (dec_entry(m[k]) matches Some(e) && e.id == k)
}

/// The stored entries in ascending id order.
pub open spec fn entry_rows(m: Map<u64, Seq<u8>>) -> Seq<EntryV> {
    tree_rows(m).map_values(|kv: (u64, Seq<u8>)| dec_entry(kv.1)->0)
}

/// Every stored subscription row decodes, and its feed id is its key.
pub open spec fn subs_wf(m: Map<u64, Seq<u8>>) -> bool {
    forall|k: u64| #[trigger]
        m.contains_key(k) ==> (dec_subscription(m[k]) matches Some(s) && s.feed_id == k)
}

/// The stored subscriptions in ascending feed-id order.
pub open spec fn subscription_rows(m: Map<u64, Seq<u8>>) -> Seq<SubscriptionV> {
    tree_rows(m).map_values(|kv: (u64, Seq<u8>)| dec_subscription(kv.1)->0)
}

/// Every stored tagging row decodes, and its id is its key.
pub open spec fn taggings_wf(m: Map<u64, Seq<u8>>) -> bool {
    forall|k: u64| #[trigger]
        m.contains_key(k) ==> (dec_tagging(m[k]) matches Some(t) && t.id == k)
}

/// The stored taggings in ascending id order.
pub open spec fn tagging_rows(m: Map<u64, Seq<u8>>) -> Seq<TaggingV> {
    tree_rows(m).map_values(|kv: (u64, Seq<u8>)| dec_tagging(kv.1)->0)
}

// ---------------------------------------------------------------------------
// Set-membership transitions of the unread and starred collections
// ---------------------------------------------------------------------------
/// The keys named by a list of entry ids.
pub open spec fn id_keys(s: Seq<EntryId>) -> Set<u64> {
    Set::new(|k: u64| exists|i: int| 0 <= i < s.len() && s[i].0 == k)
}

/// The contents after marking every id of `ids`: present ids keep an empty
/// record, everything else is untouched.
pub open spec fn with_marks(m: Map<u64, Seq<u8>>, ids: Set<u64>) -> Map<u64, Seq<u8>> {
    Map::new(
        |k: u64| m.contains_key(k) || ids.contains(k),
        |k: u64| if ids.contains(k) { Seq::empty() } else { m[k] },
    )
}

proof fn lemma_id_keys_step(s: Seq<EntryId>, i: int)
    requires
        0 <= i < s.len(),
    ensures
        forall|x: u64| #[trigger] id_keys(s.take(i + 1)).contains(x) <==> (id_keys(
            s.take(i),
        ).contains(x) || s[i].0 == x),
{
    assert forall|x: u64| #[trigger] id_keys(s.take(i + 1)).contains(x) implies (id_keys(
        s.take(i),
    ).contains(x) || s[i].0 == x) by {
        let j = choose|j: int| #![trigger s.take(i + 1)[j]] 0 <= j < s.take(i + 1).len() && s.take(i + 1)[j].0 == x;
        if j < i {
            assert(s.take(i)[j].0 == x);
        } else {
            assert(s[i].0 == x);
        }
    }
    assert forall|x: u64| (id_keys(s.take(i)).contains(x) || s[i].0 == x) implies #[trigger]
        id_keys(s.take(i + 1)).contains(x) by {
        if id_keys(s.take(i)).contains(x) {
            let j = choose|j: int| #![trigger s.take(i)[j]] 0 <= j < s.take(i).len() && s.take(i)[j].0 == x;
            assert(s.take(i + 1)[j].0 == x);
        } else {
            assert(s.take(i + 1)[i].0 == x);
        }
    }
}

/// Inserts an empty record for every id of `ids` into the collection.
fn put_marks(tree: &mut StoreTree, ids: &Vec<EntryId>) -> (r: Result<(), StoreError>)
    ensures
        r is Ok ==> tree_entries(*final(tree)) == with_marks(
            tree_entries(*old(tree)),
            id_keys(ids@),
        ),
{
    let ghost m0 = tree_entries(*tree);
    let mut i: usize = 0;
    while i < ids.len()
        invariant
            i <= ids@.len(),
            tree_entries(*tree) == with_marks(m0, id_keys(ids@.take(i as int))),
        decreases ids@.len() - i,
    {
        let empty: [u8; 0] = [];
        match tree.insert(ids[i].0, &empty) {
            Ok(_) => (),
            Err(e) => {
                return Err(e);
            },
        }
        proof {
            lemma_id_keys_step(ids@, i as int);
            assert(tree_entries(*tree) =~~= with_marks(m0, id_keys(ids@.take(i + 1))));
        }
        i = i + 1;
    }
    proof {
        assert(ids@.take(ids@.len() as int) =~= ids@);
    }
    Ok(())
}

/// Removes the records of every id of `ids` from the collection.
fn take_marks(tree: &mut StoreTree, ids: &Vec<EntryId>) -> (r: Result<(), StoreError>)
    ensures
        r is Ok ==> tree_entries(*final(tree)) == tree_entries(*old(tree)).remove_keys(
            id_keys(ids@),
        ),
{
    let ghost m0 = tree_entries(*tree);
    let mut i: usize = 0;
    while i < ids.len()
        invariant
            i <= ids@.len(),
            tree_entries(*tree) == m0.remove_keys(id_keys(ids@.take(i as int))),
        decreases ids@.len() - i,
    {
        match tree.remove(ids[i].0) {
            Ok(_) => (),
            Err(e) => {
                return Err(e);
            },
        }
        proof {
            lemma_id_keys_step(ids@, i as int);
            assert(tree_entries(*tree) =~~= m0.remove_keys(id_keys(ids@.take(i + 1))));
        }
        i = i + 1;
    }
    proof {
        assert(ids@.take(ids@.len() as int) =~= ids@);
    }
    Ok(())
}

/// Reads the ascending keys of a mark collection.
fn read_marks(tree: &StoreTree) -> (r: Result<Vec<EntryId>, StoreError>)
    ensures
        match r {
            Ok(v) => kv_rows_wf(tree_rows(tree_entries(*tree)), tree_entries(*tree))
                && v@.map_values(|e: EntryId| e.0) == tree_keys(tree_entries(*tree)),
            Err(e) => e is Engine,
        },
{
    let rows = match tree.list() {
        Ok(rows) => rows,
        Err(e) => {
            return Err(e);
        },
    };
    proof {
        lemma_rows_canonical(kvs_view(rows@), tree_entries(*tree));
    }
    let mut out: Vec<EntryId> = Vec::new();
    let mut i: usize = 0;
    while i < rows.len()
        invariant
            i <= rows@.len(),
            out@.len() == i,
            forall|j: int| 0 <= j < i ==> out@[j].0 == kvs_view(rows@)[j].0,
        decreases rows@.len() - i,
    {
        let k: u64 = rows[i].0;
        out.push(EntryId(k));
        i = i + 1;
    }
    proof {
        assert(out@.map_values(|e: EntryId| e.0) =~= tree_keys(tree_entries(*tree)));
    }
    Ok(out)
}

// ---------------------------------------------------------------------------
// The repository
// ---------------------------------------------------------------------------
/// The entry-collection contents after ingesting `e`: an entry is created
/// once per distinct id and never mutated after insertion, so when a row
/// already stands under the id nothing changes.
pub open spec fn entries_after_insert(em: Map<u64, Seq<u8>>, e: EntryV) -> Map<u64, Seq<u8>> {
    if em.contains_key(e.id) {
        em
    } else {
        em.insert(e.id, enc_entry(e))
    }
}

/// The unread contents after storing `e` into entries `em`: a mark appears
/// if and only if no entry was stored under that id before.
pub open spec fn unread_after_insert(
    em: Map<u64, Seq<u8>>,
    um: Map<u64, Seq<u8>>,
    e: EntryV,
) -> Map<u64, Seq<u8>> {
    if em.contains_key(e.id) {
        um
    } else {
        um.insert(e.id, Seq::empty())
    }
}

// ---------------------------------------------------------------------------
// Paginated, optionally tag-filtered listings
// ---------------------------------------------------------------------------
/// At most `count` elements of `s`, beginning `skip` elements in; an empty
/// sequence when `skip` runs past the end.
pub open spec fn slice_window<T>(s: Seq<T>, skip: int, count: int) -> Seq<T> {
    let lo = if skip < s.len() {
        skip
    } else {
        s.len() as int
    };
    let hi = if skip + count < s.len() {
        skip + count
    } else {
        s.len() as int
    };
    s.subrange(lo, hi)
}

/// One page of a listing: `page` is 1-based, pages at or below 1 are page 1,
/// and a page past the end is empty.
pub open spec fn page_slice<T>(s: Seq<T>, page: int, per_page: int) -> Seq<T> {
    let p = if page < 1 {
        1
    } else {
        page
    };
    slice_window(s, per_page * (p - 1), per_page)
}

/// Whether some stored tagging gives the feed one of the asked-for labels.
pub open spec fn feed_tag_match(tm: Map<u64, Seq<u8>>, fid: u64, tags: Seq<Seq<char>>) -> bool {
    exists|k: u64|
        #![trigger tm.contains_key(k)]
        tm.contains_key(k) && (dec_tagging(tm[k]) matches Some(t) && t.feed_id == fid
            && tags.contains(t.name))
}

/// Whether the list holds the feed id.
pub open spec fn has_feed(v: Seq<FeedId>, f: u64) -> bool {
    exists|u: int| 0 <= u < v.len() && v[u].0 == f
}

/// Whether one of the first `i` taggings gives the feed one of the labels.
pub open spec fn tagged_in_prefix(tv: Seq<TaggingV>, i: int, tags: Seq<Seq<char>>, f: u64) -> bool {
    exists|j: int| #![trigger tv[j]] 0 <= j < i && tv[j].feed_id == f && tags.contains(tv[j].name)
}

/// The tag-filter predicate on a listed entry.
pub open spec fn entry_pred(tm: Map<u64, Seq<u8>>, tags: Seq<Seq<char>>) -> spec_fn(EntryV) -> bool {
    |e: EntryV| feed_tag_match(tm, e.feed_id, tags)
}

/// The full reverse-chronological listing, filtered to the tagged feeds
/// when any tags are given.
pub open spec fn entry_listing(
    em: Map<u64, Seq<u8>>,
    tm: Map<u64, Seq<u8>>,
    tags: Seq<Seq<char>>,
) -> Seq<EntryV> {
    if tags.len() == 0 {
        entry_rows(em).reverse()
    } else {
        entry_rows(em).reverse().filter(entry_pred(tm, tags))
    }
}

/// What `get_entries` returns: one page of the listing.
pub open spec fn spec_get_entries(
    em: Map<u64, Seq<u8>>,
    tm: Map<u64, Seq<u8>>,
    page: int,
    per_page: int,
    tags: Seq<Seq<char>>,
) -> Seq<EntryV> {
    page_slice(entry_listing(em, tm, tags), page, per_page)
}

/// Whether an id has a stored entry row.
pub open spec fn stored_pred(em: Map<u64, Seq<u8>>) -> spec_fn(u64) -> bool {
    |k: u64| em.contains_key(k)
}

/// The entries found for a list of ids, in order, ids without a stored row
/// silently dropped.
pub open spec fn resolve_starred(em: Map<u64, Seq<u8>>, ids: Seq<u64>) -> Seq<EntryV> {
    ids.filter(stored_pred(em)).map_values(|k: u64| dec_entry(em[k])->0)
}

/// Every id of `ids` that has a stored row decodes to an entry stored
/// under its own id.
pub open spec fn resolved_ids_wf(em: Map<u64, Seq<u8>>, ids: Seq<u64>) -> bool {
    forall|t: int|
        0 <= t < ids.len() && em.contains_key(#[trigger] ids[t]) ==> (dec_entry(em[ids[t]])
            matches Some(e) && e.id == ids[t])
}

/// Filtering one more element keeps the filtered list, with the element
/// appended exactly when it passes.
pub proof fn lemma_filter_push<A>(s: Seq<A>, x: A, pred: spec_fn(A) -> bool)
    ensures
        pred(x) ==> (s.push(x)).filter(pred) == s.filter(pred).push(x),
        !pred(x) ==> (s.push(x)).filter(pred) == s.filter(pred),
{
    reveal(Seq::filter);
    assert((s.push(x)).drop_last() =~= s);
    assert((s.push(x)).last() == x);
}

/// How a window over a growing sequence evolves: before the window nothing
/// shows, inside it the element is appended, after it nothing changes.
proof fn lemma_window_push<A>(s: Seq<A>, x: A, skip: int, count: int)
    requires
        0 <= skip,
        0 <= count,
    ensures
        s.len() < skip ==> slice_window(s.push(x), skip, count) == slice_window(s, skip, count),
        skip <= s.len() < skip + count ==> slice_window(s.push(x), skip, count) == slice_window(
            s,
            skip,
            count,
        ).push(x),
        s.len() >= skip + count ==> slice_window(s.push(x), skip, count) == slice_window(
            s,
            skip,
            count,
        ),
{
    let t = s.push(x);
    if s.len() < skip {
        assert(slice_window(t, skip, count) =~= slice_window(s, skip, count));
    } else if s.len() < skip + count {
        assert(slice_window(t, skip, count) =~= slice_window(s, skip, count).push(x));
    } else {
        assert(slice_window(t, skip, count) =~= slice_window(s, skip, count));
    }
}

/// Whether the list holds a text equal to `s`.
fn contains_string(v: &Vec<String>, s: &String) -> (r: bool)
    ensures
        r == views_of(v@).contains(s@),
{
    let mut i: usize = 0;
    while i < v.len()
        invariant
            i <= v@.len(),
            forall|j: int| 0 <= j < i ==> views_of(v@)[j] != s@,
        decreases v@.len() - i,
    {
        if v[i].eq(s) {
            proof {
                assert(views_of(v@)[i as int] == s@);
            }
            return true;
        }
        i = i + 1;
    }
    proof {
        if views_of(v@).contains(s@) {
            let j = choose|j: int| 0 <= j < views_of(v@).len() && views_of(v@)[j] == s@;
            assert(false);
        }
    }
    false
}

/// Whether the list holds the feed id.
fn contains_feed(v: &Vec<FeedId>, f: u64) -> (r: bool)
    ensures
        r == has_feed(v@, f),
{
    let mut i: usize = 0;
    while i < v.len()
        invariant
            i <= v@.len(),
            forall|j: int| 0 <= j < i ==> v@[j].0 != f,
        decreases v@.len() - i,
    {
        if v[i].0 == f {
            return true;
        }
        i = i + 1;
    }
    proof {
        if has_feed(v@, f) {
            let j = choose|j: int| 0 <= j < v@.len() && v@[j].0 == f;
            assert(false);
        }
    }
    false
}

pub struct Repo {
    store: Store,
    subs: StoreTree,
    unread: StoreTree,
    starred: StoreTree,
    entries: StoreTree,
    taggings: StoreTree,
}

impl Repo {
    pub closed spec fn subs_map(&self) -> Map<u64, Seq<u8>> {
        tree_entries(self.subs)
    }

    pub closed spec fn unread_map(&self) -> Map<u64, Seq<u8>> {
        tree_entries(self.unread)
    }

    pub closed spec fn starred_map(&self) -> Map<u64, Seq<u8>> {
        tree_entries(self.starred)
    }

    pub closed spec fn entries_map(&self) -> Map<u64, Seq<u8>> {
        tree_entries(self.entries)
    }

    pub closed spec fn taggings_map(&self) -> Map<u64, Seq<u8>> {
        tree_entries(self.taggings)
    }

    /// The ids the engine's counter has handed out so far.
    pub closed spec fn issued(&self) -> Set<u64> {
        issued_ids(self.store)
    }

    /// Opens the database at the path and its five collections. What they
    /// hold afterwards is whatever is on disk.
    pub fn new(path: &str) -> (r: Result<Repo, StoreError>) {
        let store = Store::open(path)?;
        let subs = store.open_tree("subs")?;
        let unread = store.open_tree("unread")?;
        let starred = store.open_tree("starred")?;
        let entries = store.open_tree("entries")?;
        let taggings = store.open_tree("taggings")?;
        Ok(Repo { store, subs, unread, starred, entries, taggings })
    }

    /// Draws a fresh feed id from the engine's monotonic counter: a drawn
    /// id was never issued before, so two successful draws always differ.
    pub fn new_feed_id(&mut self) -> (r: Result<FeedId, StoreError>)
        ensures
            r matches Ok(id) ==> !old(self).issued().contains(id.0) && final(self).issued() == old(
                self,
            ).issued().insert(id.0),
            r is Err ==> final(self).issued() == old(self).issued(),
            final(self).subs_map() == old(self).subs_map(),
            final(self).unread_map() == old(self).unread_map(),
            final(self).starred_map() == old(self).starred_map(),
            final(self).entries_map() == old(self).entries_map(),
            final(self).taggings_map() == old(self).taggings_map(),
    {
        match self.store.generate_id() {
            Ok(id) => Ok(FeedId(id)),
            Err(e) => Err(e),
        }
    }

    /// Draws a fresh tagging id from the same engine counter: a drawn id
    /// was never issued before, so two successful draws always differ.
    pub fn new_tagging_id(&mut self) -> (r: Result<TaggingId, StoreError>)
        ensures
            r matches Ok(id) ==> !old(self).issued().contains(id.0) && final(self).issued() == old(
                self,
            ).issued().insert(id.0),
            r is Err ==> final(self).issued() == old(self).issued(),
            final(self).subs_map() == old(self).subs_map(),
            final(self).unread_map() == old(self).unread_map(),
            final(self).starred_map() == old(self).starred_map(),
            final(self).entries_map() == old(self).entries_map(),
            final(self).taggings_map() == old(self).taggings_map(),
    {
        match self.store.generate_id() {
            Ok(id) => Ok(TaggingId(id)),
            Err(e) => Err(e),
        }
    }

    /// Blocks until earlier writes are durable.
    pub fn flush(&self) -> (r: Result<(), StoreError>) {
        self.store.flush()
    }

    /// The ids of the unread entries, ascending.
    pub fn get_unread(&self) -> (r: Result<Vec<EntryId>, StoreError>)
        ensures
            match r {
                Ok(v) => kv_rows_wf(tree_rows(self.unread_map()), self.unread_map())
                    && v@.map_values(|e: EntryId| e.0) == tree_keys(self.unread_map()),
                Err(e) => e is Engine,
            },
    {
        read_marks(&self.unread)
    }

    /// Marks every given id unread; already-marked ids stay marked.
    pub fn add_unread(&mut self, ids: &Vec<EntryId>) -> (r: Result<(), StoreError>)
        ensures
            r is Ok ==> final(self).unread_map() == with_marks(
                old(self).unread_map(),
                id_keys(ids@),
            ),
            final(self).subs_map() == old(self).subs_map(),
            final(self).starred_map() == old(self).starred_map(),
            final(self).entries_map() == old(self).entries_map(),
            final(self).taggings_map() == old(self).taggings_map(),
            final(self).issued() == old(self).issued(),
    {
        put_marks(&mut self.unread, ids)
    }

    /// Clears the unread mark of every given id.
    pub fn delete_unread(&mut self, ids: &Vec<EntryId>) -> (r: Result<(), StoreError>)
        ensures
            r is Ok ==> final(self).unread_map() == old(self).unread_map().remove_keys(
                id_keys(ids@),
            ),
            final(self).subs_map() == old(self).subs_map(),
            final(self).starred_map() == old(self).starred_map(),
            final(self).entries_map() == old(self).entries_map(),
            final(self).taggings_map() == old(self).taggings_map(),
            final(self).issued() == old(self).issued(),
    {
        take_marks(&mut self.unread, ids)
    }

    /// The ids of the starred entries, ascending.
    pub fn get_starred(&self) -> (r: Result<Vec<EntryId>, StoreError>)
        ensures
            match r {
                Ok(v) => kv_rows_wf(tree_rows(self.starred_map()), self.starred_map())
                    && v@.map_values(|e: EntryId| e.0) == tree_keys(self.starred_map()),
                Err(e) => e is Engine,
            },
    {
        read_marks(&self.starred)
    }

    /// Stars every given id; already-starred ids stay starred.
    pub fn add_starred(&mut self, ids: &Vec<EntryId>) -> (r: Result<(), StoreError>)
        ensures
            r is Ok ==> final(self).starred_map() == with_marks(
                old(self).starred_map(),
                id_keys(ids@),
            ),
            final(self).subs_map() == old(self).subs_map(),
            final(self).unread_map() == old(self).unread_map(),
            final(self).entries_map() == old(self).entries_map(),
            final(self).taggings_map() == old(self).taggings_map(),
            final(self).issued() == old(self).issued(),
    {
        put_marks(&mut self.starred, ids)
    }

    /// Clears the star of every given id.
    pub fn delete_starred(&mut self, ids: &Vec<EntryId>) -> (r: Result<(), StoreError>)
        ensures
            r is Ok ==> final(self).starred_map() == old(self).starred_map().remove_keys(
                id_keys(ids@),
            ),
            final(self).subs_map() == old(self).subs_map(),
            final(self).unread_map() == old(self).unread_map(),
            final(self).entries_map() == old(self).entries_map(),
            final(self).taggings_map() == old(self).taggings_map(),
            final(self).issued() == old(self).issued(),
    {
        take_marks(&mut self.starred, ids)
    }

    /// Upserts a subscription, keyed by its feed id; no deduplication
    /// against existing feed addresses.
    pub fn add_subscription(&mut self, sub: &Subscription) -> (r: Result<(), StoreError>)
        ensures
            r is Ok ==> final(self).subs_map() == old(self).subs_map().insert(
                sub.feed_id.0,
                enc_subscription(sub@),
            ),
            final(self).unread_map() == old(self).unread_map(),
            final(self).starred_map() == old(self).starred_map(),
            final(self).entries_map() == old(self).entries_map(),
            final(self).taggings_map() == old(self).taggings_map(),
            final(self).issued() == old(self).issued(),
    {
        let data = sub.encode();
        match self.subs.insert(sub.feed_id.0, data.as_slice()) {
            Ok(_) => Ok(()),
            Err(e) => Err(e),
        }
    }

    /// Removes the subscription row only; its entries stay readable.
    pub fn delete_subscription(&mut self, id: FeedId) -> (r: Result<(), StoreError>)
        ensures
            r is Ok ==> final(self).subs_map() == old(self).subs_map().remove(id.0),
            final(self).unread_map() == old(self).unread_map(),
            final(self).starred_map() == old(self).starred_map(),
            final(self).entries_map() == old(self).entries_map(),
            final(self).taggings_map() == old(self).taggings_map(),
            final(self).issued() == old(self).issued(),
    {
        match self.subs.remove(id.0) {
            Ok(_) => Ok(()),
            Err(e) => Err(e),
        }
    }

    /// The stored subscriptions, in ascending feed-id order.
    pub fn get_subscriptions(&self) -> (r: Result<Vec<Subscription>, StoreError>)
        ensures
            match r {
                Ok(v) => subs_wf(self.subs_map()) && kv_rows_wf(
                    tree_rows(self.subs_map()),
                    self.subs_map(),
                ) && views_of(v@) == subscription_rows(self.subs_map()),
                Err(e) => e is Corrupt ==> !subs_wf(self.subs_map()),
            },
    {
        let rows = match self.subs.list() {
            Ok(rows) => rows,
            Err(e) => {
                return Err(e);
            },
        };
        proof {
            lemma_rows_canonical(kvs_view(rows@), self.subs_map());
        }
        let ghost rs = tree_rows(self.subs_map());
        let mut out: Vec<Subscription> = Vec::new();
        let mut i: usize = 0;
        while i < rows.len()
            invariant
                i <= rows@.len(),
                rs == tree_rows(self.subs_map()),
                kv_rows_wf(rs, self.subs_map()),
                rs == kvs_view(rows@),
                rs.len() == rows@.len(),
                out@.len() == i,
                forall|j: int|
                    0 <= j < i ==> (dec_subscription(#[trigger] rs[j].1) matches Some(v)
                        && v.feed_id == rs[j].0 && out@[j]@ == v),
            decreases rows@.len() - i,
        {
            let s = match Subscription::decode(rows[i].1.as_slice()) {
                Some(s) => s,
                None => {
                    proof {
                        assert(self.subs_map().contains_key(rs[i as int].0));
                        assert(self.subs_map()[rs[i as int].0] == rs[i as int].1);
                    }
                    return Err(StoreError::Corrupt);
                },
            };
            if s.feed_id.0 != rows[i].0 {
                proof {
                    assert(self.subs_map().contains_key(rs[i as int].0));
                    assert(self.subs_map()[rs[i as int].0] == rs[i as int].1);
                }
                return Err(StoreError::Corrupt);
            }
            out.push(s);
            i = i + 1;
        }
        proof {
            assert forall|k: u64| #[trigger] self.subs_map().contains_key(k) implies
                dec_subscription(self.subs_map()[k]) matches Some(s) && s.feed_id == k by {
                let j = choose|j: int| 0 <= j < rs.len() && rs[j].0 == k;
                assert(rs[j].1 == self.subs_map()[k]);
            }
            assert(views_of(out@) =~= subscription_rows(self.subs_map()));
        }
        Ok(out)
    }

    /// The stored taggings, in ascending id order.
    pub fn get_taggings(&self) -> (r: Result<Vec<Tagging>, StoreError>)
        ensures
            match r {
                Ok(v) => taggings_wf(self.taggings_map()) && kv_rows_wf(
                    tree_rows(self.taggings_map()),
                    self.taggings_map(),
                ) && views_of(v@) == tagging_rows(self.taggings_map()),
                Err(e) => e is Corrupt ==> !taggings_wf(self.taggings_map()),
            },
    {
        let rows = match self.taggings.list() {
            Ok(rows) => rows,
            Err(e) => {
                return Err(e);
            },
        };
        proof {
            lemma_rows_canonical(kvs_view(rows@), self.taggings_map());
        }
        let ghost rs = tree_rows(self.taggings_map());
        let mut out: Vec<Tagging> = Vec::new();
        let mut i: usize = 0;
        while i < rows.len()
            invariant
                i <= rows@.len(),
                rs == tree_rows(self.taggings_map()),
                kv_rows_wf(rs, self.taggings_map()),
                rs == kvs_view(rows@),
                rs.len() == rows@.len(),
                out@.len() == i,
                forall|j: int|
                    0 <= j < i ==> (dec_tagging(#[trigger] rs[j].1) matches Some(v) && v.id
                        == rs[j].0 && out@[j]@ == v),
            decreases rows@.len() - i,
        {
            let t = match Tagging::decode(rows[i].1.as_slice()) {
                Some(t) => t,
                None => {
                    proof {
                        assert(self.taggings_map().contains_key(rs[i as int].0));
                        assert(self.taggings_map()[rs[i as int].0] == rs[i as int].1);
                    }
                    return Err(StoreError::Corrupt);
                },
            };
            if t.id.0 != rows[i].0 {
                proof {
                    assert(self.taggings_map().contains_key(rs[i as int].0));
                    assert(self.taggings_map()[rs[i as int].0] == rs[i as int].1);
                }
                return Err(StoreError::Corrupt);
            }
            out.push(t);
            i = i + 1;
        }
        proof {
            assert forall|k: u64| #[trigger] self.taggings_map().contains_key(k) implies
                dec_tagging(self.taggings_map()[k]) matches Some(t) && t.id == k by {
                let j = choose|j: int| 0 <= j < rs.len() && rs[j].0 == k;
                assert(rs[j].1 == self.taggings_map()[k]);
            }
            assert(views_of(out@) =~= tagging_rows(self.taggings_map()));
        }
        Ok(out)
    }

    /// Stores a tagging, keyed by its own id; no uniqueness enforced.
    pub fn add_tagging(&mut self, tagging: &Tagging) -> (r: Result<(), StoreError>)
        ensures
            r is Ok ==> final(self).taggings_map() == old(self).taggings_map().insert(
                tagging.id.0,
                enc_tagging(tagging@),
            ),
            final(self).subs_map() == old(self).subs_map(),
            final(self).unread_map() == old(self).unread_map(),
            final(self).starred_map() == old(self).starred_map(),
            final(self).entries_map() == old(self).entries_map(),
            final(self).issued() == old(self).issued(),
    {
        let data = tagging.encode();
        match self.taggings.insert(tagging.id.0, data.as_slice()) {
            Ok(_) => Ok(()),
            Err(e) => Err(e),
        }
    }

    /// Removes a tagging row.
    pub fn delete_tagging(&mut self, id: TaggingId) -> (r: Result<(), StoreError>)
        ensures
            r is Ok ==> final(self).taggings_map() == old(self).taggings_map().remove(id.0),
            final(self).subs_map() == old(self).subs_map(),
            final(self).unread_map() == old(self).unread_map(),
            final(self).starred_map() == old(self).starred_map(),
            final(self).entries_map() == old(self).entries_map(),
            final(self).issued() == old(self).issued(),
    {
        match self.taggings.remove(id.0) {
            Ok(_) => Ok(()),
            Err(e) => Err(e),
        }
    }

    /// Ingests an entry under its content-derived id, in one storage
    /// transaction: when no entry stands under the id, the entry row and
    /// its unread mark are created together; when one does, nothing is
    /// written — an entry is never mutated after insertion, so calling
    /// this with the same entry repeatedly is a no-op. On an error the
    /// transaction has not been applied and both collections are
    /// unchanged: the entry is surfaced as failed, never silently dropped.
    pub fn insert_entry(&mut self, entry: &Entry) -> (r: Result<(), StoreError>)
        ensures
            r is Ok ==> final(self).entries_map() == entries_after_insert(
                old(self).entries_map(),
                entry@,
            ) && final(self).unread_map() == unread_after_insert(
                old(self).entries_map(),
                old(self).unread_map(),
                entry@,
            ),
            r is Err ==> final(self).entries_map() == old(self).entries_map()
                && final(self).unread_map() == old(self).unread_map(),
            final(self).subs_map() == old(self).subs_map(),
            final(self).starred_map() == old(self).starred_map(),
            final(self).taggings_map() == old(self).taggings_map(),
            final(self).issued() == old(self).issued(),
    {
        let data = entry.encode();
        match self.entries.insert_new_with_mark(&mut self.unread, entry.id.0, data.as_slice()) {
            Ok(_) => Ok(()),
            Err(e) => Err(e),
        }
    }

    /// Removes a stored entry row only; unread and starred marks for the id
    /// are left as they are.
    pub fn delete_entry(&mut self, id: EntryId) -> (r: Result<(), StoreError>)
        ensures
            r is Ok ==> final(self).entries_map() == old(self).entries_map().remove(id.0),
            final(self).subs_map() == old(self).subs_map(),
            final(self).unread_map() == old(self).unread_map(),
            final(self).starred_map() == old(self).starred_map(),
            final(self).taggings_map() == old(self).taggings_map(),
            final(self).issued() == old(self).issued(),
    {
        match self.entries.remove(id.0) {
            Ok(_) => Ok(()),
            Err(e) => Err(e),
        }
    }

    /// The feeds carrying at least one of the asked-for labels, from a full
    /// scan of the taggings.
    fn get_feeds_by_tags(&self, tags: &Vec<String>) -> (r: Result<Vec<FeedId>, StoreError>)
        ensures
            match r {
                Ok(v) => taggings_wf(self.taggings_map()) && forall|f: u64| #[trigger]
                    has_feed(v@, f) <==> feed_tag_match(self.taggings_map(), f, views_of(tags@)),
                Err(e) => e is Corrupt ==> !taggings_wf(self.taggings_map()),
            },
    {
        let ghost tm = self.taggings_map();
        let ghost tagsv = views_of(tags@);
        let tlist = match self.get_taggings() {
            Ok(t) => t,
            Err(e) => {
                return Err(e);
            },
        };
        let ghost tv = tagging_rows(tm);
        let mut out: Vec<FeedId> = Vec::new();
        let mut i: usize = 0;
        while i < tlist.len()
            invariant
                i <= tlist@.len(),
                tm == self.taggings_map(),
                tagsv == views_of(tags@),
                tv == tagging_rows(tm),
                taggings_wf(tm),
                kv_rows_wf(tree_rows(tm), tm),
                views_of(tlist@) == tv,
                tv.len() == tlist@.len(),
                forall|f: u64| #[trigger] has_feed(out@, f) <==> tagged_in_prefix(
                    tv,
                    i as int,
                    tagsv,
                    f,
                ),
            decreases tlist@.len() - i,
        {
            let t = &tlist[i];
            proof {
                assert(t@ == views_of(tlist@)[i as int]);
            }
            let matched = contains_string(tags, &t.name);
            let ghost out0 = out@;
            if matched {
                out.push(t.feed_id);
            }
            proof {
                assert forall|f: u64| #[trigger] has_feed(out@, f) implies tagged_in_prefix(
                    tv,
                    i + 1,
                    tagsv,
                    f,
                ) by {
                    let u = choose|u: int| 0 <= u < out@.len() && out@[u].0 == f;
                    if matched && u == out@.len() - 1 {
                        assert(out@[u] == t.feed_id);
                        assert(tv[i as int].feed_id == f && tagsv.contains(tv[i as int].name));
                        assert(tagged_in_prefix(tv, i + 1, tagsv, f));
                    } else {
                        assert(out@[u] == out0[u]);
                        assert(0 <= u < out0.len() && out0[u].0 == f);
                        assert(has_feed(out0, f));
                        assert(tagged_in_prefix(tv, i as int, tagsv, f));
                        let j = choose|j: int|
                            #![trigger tv[j]]
                            0 <= j < i && tv[j].feed_id == f && tagsv.contains(tv[j].name);
                        assert(tagged_in_prefix(tv, i + 1, tagsv, f));
                    }
                }
                assert forall|f: u64| #[trigger] tagged_in_prefix(tv, i + 1, tagsv, f) implies
                    has_feed(out@, f) by {
                    let j = choose|j: int|
                        #![trigger tv[j]]
                        0 <= j < i + 1 && tv[j].feed_id == f && tagsv.contains(tv[j].name);
                    if j == i {
                        assert(tagsv.contains(tv[i as int].name));
                        assert(matched);
                        assert(out@[out@.len() - 1].0 == f);
                        assert(has_feed(out@, f));
                    } else {
                        assert(tagged_in_prefix(tv, i as int, tagsv, f));
                        assert(has_feed(out0, f));
                        let u = choose|u: int| 0 <= u < out0.len() && out0[u].0 == f;
                        assert(out@[u].0 == f);
                        assert(has_feed(out@, f));
                    }
                }
            }
            i = i + 1;
        }
        proof {
            assert forall|f: u64| #[trigger] tagged_in_prefix(tv, tv.len() as int, tagsv, f)
                implies feed_tag_match(tm, f, tagsv) by {
                let j = choose|j: int|
                    #![trigger tv[j]]
                    0 <= j < tv.len() && tv[j].feed_id == f && tagsv.contains(tv[j].name);
                let k = tree_rows(tm)[j].0;
                assert(tm.contains_key(k) && tm[k] == tree_rows(tm)[j].1);
                assert(dec_tagging(tm[k])->0 == tv[j]);
            }
            assert forall|f: u64| #[trigger] feed_tag_match(tm, f, tagsv) implies tagged_in_prefix(
                tv,
                tv.len() as int,
                tagsv,
                f,
            ) by {
                let k = choose|k: u64|
                    #![trigger tm.contains_key(k)]
                    tm.contains_key(k) && (dec_tagging(tm[k]) matches Some(t) && t.feed_id == f
                        && tagsv.contains(t.name));
                let j = choose|j: int|
                    #![trigger tree_rows(tm)[j]]
                    0 <= j < tree_rows(tm).len() && tree_rows(tm)[j].0 == k;
                assert(tree_rows(tm)[j].1 == tm[k]);
                assert(tv[j] == dec_tagging(tm[k])->0);
            }
        }
        Ok(out)
    }

    /// One page of the reverse-chronological entry listing, filtered to the
    /// feeds carrying one of the given tags when any are given. Pages at or
    /// below 1 are page 1; a page past the end is empty.
    pub fn get_entries(&self, page: usize, per_page: usize, tags: &Vec<String>) -> (r: Result<
        Vec<Entry>,
        StoreError,
    >)
        ensures
            match r {
                Ok(v) => entries_wf(self.entries_map()) && kv_rows_wf(
                    tree_rows(self.entries_map()),
                    self.entries_map(),
                ) && (tags@.len() > 0 ==> taggings_wf(
                    self.taggings_map(),
                )) && views_of(v@) == spec_get_entries(
                    self.entries_map(),
                    self.taggings_map(),
                    page as int,
                    per_page as int,
                    views_of(tags@),
                ),
                Err(e) => e is Corrupt ==> !entries_wf(self.entries_map()) || !taggings_wf(
                    self.taggings_map(),
                ),
            },
    {
        let ghost em = self.entries_map();
        let ghost tm = self.taggings_map();
        let ghost tagsv = views_of(tags@);
        let use_filter = tags.len() > 0;
        proof {
            assert(tagsv.len() == tags@.len());
        }
        let feeds: Vec<FeedId> = if use_filter {
            match self.get_feeds_by_tags(tags) {
                Ok(v) => v,
                Err(e) => {
                    return Err(e);
                },
            }
        } else {
            Vec::new()
        };
        let rows = match self.entries.list() {
            Ok(rows) => rows,
            Err(e) => {
                return Err(e);
            },
        };
        proof {
            lemma_rows_canonical(kvs_view(rows@), em);
        }
        let ghost rs = tree_rows(em);
        let mut ents: Vec<Entry> = Vec::new();
        let mut i: usize = 0;
        while i < rows.len()
            invariant
                i <= rows@.len(),
                em == self.entries_map(),
                rs == tree_rows(em),
                kv_rows_wf(rs, em),
                rs == kvs_view(rows@),
                rs.len() == rows@.len(),
                ents@.len() == i,
                forall|j: int|
                    0 <= j < i ==> (dec_entry(#[trigger] rs[j].1) matches Some(v) && v.id
                        == rs[j].0 && ents@[j]@ == v),
            decreases rows@.len() - i,
        {
            let e = match Entry::decode(rows[i].1.as_slice()) {
                Some(e) => e,
                None => {
                    proof {
                        assert(em.contains_key(rs[i as int].0));
                        assert(em[rs[i as int].0] == rs[i as int].1);
                    }
                    return Err(StoreError::Corrupt);
                },
            };
            if e.id.0 != rows[i].0 {
                proof {
                    assert(em.contains_key(rs[i as int].0));
                    assert(em[rs[i as int].0] == rs[i as int].1);
                }
                return Err(StoreError::Corrupt);
            }
            ents.push(e);
            i = i + 1;
        }
        proof {
            assert forall|k: u64| #[trigger] em.contains_key(k) implies (dec_entry(em[k])
                matches Some(e) && e.id == k) by {
                let j = choose|j: int| #![trigger rs[j]] 0 <= j < rs.len() && rs[j].0 == k;
                assert(rs[j].1 == em[k]);
            }
            assert(views_of(ents@) =~= entry_rows(em));
        }
        let total: usize = ents.len();
        let ghost orig = ents@;
        let ghost n = orig.len();
        let ghost rev = views_of(orig).reverse();
        proof {
            assert(n == total);
        }
        let pe: usize = if page < 1 {
            1
        } else {
            page
        };
        let skip: usize = match per_page.checked_mul(pe - 1) {
            Some(skip) => skip,
            None => {
                let none: Vec<Entry> = Vec::new();
                proof {
                    let listing = entry_listing(em, tm, tagsv);
                    if tagsv.len() > 0 {
                        entry_rows(em).reverse().lemma_filter_len(entry_pred(tm, tagsv));
                    }
                    assert(listing.len() <= n);
                    assert(views_of(none@) =~= page_slice(listing, page as int, per_page as int));
                }
                return Ok(none);
            },
        };
        let mut seen: usize = 0;
        let mut out: Vec<Entry> = Vec::new();
        while ents.len() > 0
            invariant
                n == orig.len(),
                n == total,
                rev == views_of(orig).reverse(),
                ents@ == orig.take(ents@.len() as int),
                ents@.len() <= n,
                use_filter == (tagsv.len() > 0),
                skip == per_page * (if page < 1 { 1int } else { page as int } - 1),
                use_filter ==> (taggings_wf(tm) && forall|f: u64| #[trigger] has_feed(feeds@, f)
                    <==> feed_tag_match(tm, f, tagsv)),
                seen == (if use_filter {
                    rev.take((n - ents@.len()) as int).filter(entry_pred(tm, tagsv))
                } else {
                    rev.take((n - ents@.len()) as int)
                }).len(),
                out@.len() <= per_page,
                views_of(out@) == slice_window(
                    if use_filter {
                        rev.take((n - ents@.len()) as int).filter(entry_pred(tm, tagsv))
                    } else {
                        rev.take((n - ents@.len()) as int)
                    },
                    skip as int,
                    per_page as int,
                ),
            decreases ents@.len(),
        {
            let ghost l = ents@.len() as int;
            let ghost j = n - l;
            let ghost lpj = if use_filter {
                rev.take(j as int).filter(entry_pred(tm, tagsv))
            } else {
                rev.take(j as int)
            };
            let e = ents.pop().unwrap();
            proof {
                assert(ents@ =~= orig.take(l - 1));
                assert(e@ == rev[j as int]);
                assert(rev.take(j + 1) =~= rev.take(j as int).push(rev[j as int]));
                if use_filter {
                    lemma_filter_push(rev.take(j as int), rev[j as int], entry_pred(tm, tagsv));
                    rev.take(j as int).lemma_filter_len(entry_pred(tm, tagsv));
                }
                lemma_window_push(lpj, rev[j as int], skip as int, per_page as int);
            }
            let keep = if use_filter {
                contains_feed(&feeds, e.feed_id.0)
            } else {
                true
            };
            proof {
                if use_filter {
                    assert(keep == entry_pred(tm, tagsv)(rev[j as int]));
                }
            }
            if keep {
                if seen >= skip && out.len() < per_page {
                    let ghost out0 = out@;
                    out.push(e);
                    proof {
                        assert(views_of(out@) =~= views_of(out0).push(e@));
                    }
                } else {
                }
                proof {
                    assert(lpj.len() <= j);
                    assert(seen < total);
                }
                seen = seen + 1;
            }
            proof {
                let lpj1 = if use_filter {
                    rev.take(j + 1).filter(entry_pred(tm, tagsv))
                } else {
                    rev.take(j + 1)
                };
                assert(views_of(out@) =~= slice_window(lpj1, skip as int, per_page as int));
            }
        }
        proof {
            assert(rev.take(n as int) =~= rev);
            assert(views_of(orig) == entry_rows(em));
            assert(views_of(out@) == spec_get_entries(
                em,
                tm,
                page as int,
                per_page as int,
                tagsv,
            ));
        }
        Ok(out)
    }

    /// One page over the starred ids in reverse key order, each id resolved
    /// against the stored entries; ids whose entry row has since been
    /// removed are silently dropped rather than reported as errors.
    pub fn get_starred_entries(&self, page: usize, per_page: usize) -> (r: Result<
        Vec<Entry>,
        StoreError,
    >)
        ensures
            match r {
                Ok(v) => views_of(v@) == resolve_starred(
                    self.entries_map(),
                    page_slice(
                        tree_keys(self.starred_map()).reverse(),
                        page as int,
                        per_page as int,
                    ),
                ) && resolved_ids_wf(
                    self.entries_map(),
                    page_slice(
                        tree_keys(self.starred_map()).reverse(),
                        page as int,
                        per_page as int,
                    ),
                ) && kv_rows_wf(tree_rows(self.starred_map()), self.starred_map()),
                Err(e) => e is Corrupt ==> !entries_wf(self.entries_map()),
            },
    {
        let ghost em = self.entries_map();
        let ghost sm = self.starred_map();
        let skeys = match self.get_starred() {
            Ok(v) => v,
            Err(e) => {
                return Err(e);
            },
        };
        let ghost keysv = tree_keys(sm);
        let ghost revk = keysv.reverse();
        let n = skeys.len();
        proof {
            assert(keysv.len() == skeys@.len());
            assert(forall|u: int| 0 <= u < keysv.len() ==> keysv[u] == skeys@[u].0);
        }
        let pe: usize = if page < 1 {
            1
        } else {
            page
        };
        let skip: usize = match per_page.checked_mul(pe - 1) {
            Some(skip) => skip,
            None => {
                let none: Vec<Entry> = Vec::new();
                proof {
                    assert(page_slice(revk, page as int, per_page as int) =~= Seq::<u64>::empty());
                    reveal(Seq::filter);
                    assert(views_of(none@) =~= resolve_starred(
                        em,
                        page_slice(revk, page as int, per_page as int),
                    ));
                    assert(resolved_ids_wf(em, page_slice(revk, page as int, per_page as int)));
                }
                return Ok(none);
            },
        };
        let lo: usize = if skip < n {
            skip
        } else {
            n
        };
        let hi: usize = if per_page > n - lo {
            n
        } else {
            lo + per_page
        };
        let ghost w = page_slice(revk, page as int, per_page as int);
        proof {
            assert(w =~= revk.subrange(lo as int, hi as int));
        }
        let mut out: Vec<Entry> = Vec::new();
        let mut t: usize = lo;
        while t < hi
            invariant
                lo <= t <= hi <= n,
                n == skeys@.len(),
                em == self.entries_map(),
                keysv == tree_keys(sm),
                revk == keysv.reverse(),
                keysv.len() == n,
                forall|u: int| 0 <= u < keysv.len() ==> keysv[u] == skeys@[u].0,
                w == page_slice(revk, page as int, per_page as int),
                w =~= revk.subrange(lo as int, hi as int),
                kv_rows_wf(tree_rows(sm), sm),
                views_of(out@) == resolve_starred(em, w.take((t - lo) as int)),
                resolved_ids_wf(em, w.take((t - lo) as int)),
            decreases hi - t,
        {
            let id: u64 = skeys[n - 1 - t].0;
            proof {
                assert(w.take((t - lo) + 1) =~= w.take((t - lo) as int).push(w[(t - lo) as int]));
                assert(w[(t - lo) as int] == revk[t as int]);
                assert(revk[t as int] == keysv[n - 1 - t]);
                assert(id == w[(t - lo) as int]);
                lemma_filter_push(w.take((t - lo) as int), id, stored_pred(em));
            }
            match self.entries.get(id) {
                Ok(Some(bytes)) => {
                    let e = match Entry::decode(bytes.as_slice()) {
                        Some(e) => e,
                        None => {
                            proof {
                                assert(em.contains_key(id) && bytes@ == em[id]);
                            }
                            return Err(StoreError::Corrupt);
                        },
                    };
                    if e.id.0 != id {
                        proof {
                            assert(em.contains_key(id) && bytes@ == em[id]);
                        }
                        return Err(StoreError::Corrupt);
                    }
                    let ghost out0 = out@;
                    out.push(e);
                    proof {
                        assert(views_of(out@) =~= views_of(out0).push(e@));
                        assert(views_of(out@) =~= resolve_starred(em, w.take((t - lo) + 1)));
                        assert forall|u: int|
                            0 <= u < w.take((t - lo) + 1).len() && em.contains_key(
                                #[trigger] w.take((t - lo) + 1)[u],
                            ) implies (dec_entry(em[w.take((t - lo) + 1)[u]]) matches Some(x)
                            && x.id == w.take((t - lo) + 1)[u]) by {
                            if u < t - lo {
                                assert(w.take((t - lo) + 1)[u] == w.take((t - lo) as int)[u]);
                            } else {
                                assert(w.take((t - lo) + 1)[u] == id);
                            }
                        }
                    }
                },
                Ok(None) => {
                    proof {
                        assert(views_of(out@) =~= resolve_starred(em, w.take((t - lo) + 1)));
                        assert forall|u: int|
                            0 <= u < w.take((t - lo) + 1).len() && em.contains_key(
                                #[trigger] w.take((t - lo) + 1)[u],
                            ) implies (dec_entry(em[w.take((t - lo) + 1)[u]]) matches Some(x)
                            && x.id == w.take((t - lo) + 1)[u]) by {
                            if u < t - lo {
                                assert(w.take((t - lo) + 1)[u] == w.take((t - lo) as int)[u]);
                            } else {
                                assert(w.take((t - lo) + 1)[u] == id);
                            }
                        }
                    }
                },
                Err(e) => {
                    return Err(e);
                },
            }
            t = t + 1;
        }
        proof {
            assert(w.take((hi - lo) as int) =~= w);
        }
        Ok(out)
    }
}

} // verus!
