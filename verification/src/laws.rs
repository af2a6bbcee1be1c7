//! The library's cross-cutting guarantees, each stated and proved over the
//! spec-level models that the repository's contracts use.

use crate::feed::ItemV;
use crate::ids::{spec_entry_id, spec_time_bucket};
use crate::refresh::apply_item;
use crate::repo::{
    entries_after_insert, entries_wf, entry_listing, entry_pred, entry_rows, feed_tag_match,
    lemma_filter_push, page_slice, resolve_starred, stored_pred, tree_rows, unread_after_insert,
};
use crate::store::kv_rows_wf;
use crate::types::{spec_entry_of_item, spec_item_ident, EntryV};
use vstd::prelude::*;

verus! {

// ---------------------------------------------------------------------------
// Idempotent ingestion
// ---------------------------------------------------------------------------
/// Storing the same entry twice leaves exactly what storing it once left:
/// the one entry row, and the one unread mark it gained if it was new.
pub proof fn lemma_insert_entry_idempotent(em: Map<u64, Seq<u8>>, um: Map<u64, Seq<u8>>, e: EntryV)
    ensures
        entries_after_insert(entries_after_insert(em, e), e) == entries_after_insert(em, e),
        unread_after_insert(
            entries_after_insert(em, e),
            unread_after_insert(em, um, e),
            e,
        ) == unread_after_insert(em, um, e),
{
    assert(entries_after_insert(entries_after_insert(em, e), e) =~= entries_after_insert(em, e));
    assert(entries_after_insert(em, e).contains_key(e.id));
}

/// Ingesting the same item twice, identity and publish time unchanged,
/// produces exactly one entry and at most one unread mark: the second
/// ingestion changes nothing.
pub proof fn lemma_ingest_item_idempotent(
    em: Map<u64, Seq<u8>>,
    um: Map<u64, Seq<u8>>,
    feed_id: u64,
    item: ItemV,
    created_at: i64,
)
    ensures
        apply_item(
            apply_item((em, um), feed_id, item, created_at),
            feed_id,
            item,
            created_at,
        ) == apply_item((em, um), feed_id, item, created_at),
{
    match spec_item_ident(item) {
        Some(_) => {
            let e = spec_entry_of_item(feed_id, item, created_at);
            lemma_insert_entry_idempotent(em, um, e);
        },
        None => {},
    }
}

// ---------------------------------------------------------------------------
// Fresh identifiers
// ---------------------------------------------------------------------------
/// Ids drawn from the engine's counter are distinct: a draw is never in
/// the issued set it joins, and the next draw avoids that larger set, so
/// two successful draws never return the same id.
pub proof fn lemma_drawn_ids_distinct(issued: Set<u64>, first: u64, second: u64)
    requires
        !issued.contains(first),
        !issued.insert(first).contains(second),
    ensures
        first != second,
{
}

// ---------------------------------------------------------------------------
// Chronological ordering
// ---------------------------------------------------------------------------
/// The reversed stored rows are in strictly descending id order.
proof fn lemma_rev_rows_descending(em: Map<u64, Seq<u8>>)
    requires
        entries_wf(em),
        kv_rows_wf(tree_rows(em), em),
    ensures
        forall|a: int, b: int|
            0 <= a < b < entry_rows(em).reverse().len() ==> #[trigger] entry_rows(
                em,
            ).reverse()[a].id > #[trigger] entry_rows(em).reverse()[b].id,
{
    let rows = tree_rows(em);
    let rev = entry_rows(em).reverse();
    let n = rev.len() as int;
    assert forall|a: int, b: int| 0 <= a < b < rev.len() implies #[trigger] rev[a].id
        > #[trigger] rev[b].id by {
        let x = n - 1 - b;
        let y = n - 1 - a;
        assert(rows[x].0 < rows[y].0);
        assert(em.contains_key(rows[x].0) && em[rows[x].0] == rows[x].1);
        assert(em.contains_key(rows[y].0) && em[rows[y].0] == rows[y].1);
        assert(rev[b] == entry_rows(em)[x] && entry_rows(em)[x].id == rows[x].0);
        assert(rev[a] == entry_rows(em)[y] && entry_rows(em)[y].id == rows[y].0);
    }
}

/// Filtering keeps a strictly descending id order.
proof fn lemma_filter_keeps_descending(s: Seq<EntryV>, pred: spec_fn(EntryV) -> bool)
    requires
        forall|a: int, b: int| 0 <= a < b < s.len() ==> #[trigger] s[a].id > #[trigger] s[b].id,
    ensures
        forall|a: int, b: int|
            0 <= a < b < s.filter(pred).len() ==> #[trigger] s.filter(pred)[a].id
                > #[trigger] s.filter(pred)[b].id,
    decreases s.len(),
{
    reveal(Seq::filter);
    if s.len() > 0 {
        let t = s.drop_last();
        assert(forall|a: int| 0 <= a < t.len() ==> t[a] == s[a]);
        lemma_filter_keeps_descending(t, pred);
        let ft = t.filter(pred);
        assert forall|a: int, b: int| 0 <= a < b < s.filter(pred).len() implies #[trigger] s.filter(
            pred,
        )[a].id > #[trigger] s.filter(pred)[b].id by {
            if pred(s.last()) && b == s.filter(pred).len() - 1 {
                assert(s.filter(pred)[b] == s.last());
                assert(s.filter(pred)[a] == ft[a]);
                assert(ft.contains(ft[a]));
                lemma_filter_elem_of(t, pred, ft[a]);
                let y = choose|y: int| 0 <= y < t.len() && t[y] == ft[a];
                assert(s[y].id > s[s.len() - 1].id);
            } else {
                assert(s.filter(pred)[a] == ft[a] && s.filter(pred)[b] == ft[b]);
            }
        }
    }
}

/// In the first page of a listing, with or without a tag filter, entries
/// appear in strictly descending id order: ascending stored order,
/// reversed, with the filter only thinning it.
pub proof fn lemma_page_one_descending(
    em: Map<u64, Seq<u8>>,
    tm: Map<u64, Seq<u8>>,
    per_page: int,
    tags: Seq<Seq<char>>,
    i: int,
    j: int,
)
    requires
        entries_wf(em),
        kv_rows_wf(tree_rows(em), em),
        per_page >= 0,
        0 <= i < j < page_slice(entry_listing(em, tm, tags), 1, per_page).len(),
    ensures
        page_slice(entry_listing(em, tm, tags), 1, per_page)[i].id > page_slice(
            entry_listing(em, tm, tags),
            1,
            per_page,
        )[j].id,
{
    lemma_rev_rows_descending(em);
    if tags.len() > 0 {
        lemma_filter_keeps_descending(entry_rows(em).reverse(), entry_pred(tm, tags));
    }
    let listing = entry_listing(em, tm, tags);
    let page = page_slice(listing, 1, per_page);
    assert(page[i] == listing[i] && page[j] == listing[j]);
}

/// A smaller entry id never comes from a later timestamp bucket, so the
/// descending-id page order is descending publish order wherever the
/// publish times fall in distinct buckets.
pub proof fn lemma_id_order_is_chronological(
    ident1: Seq<char>,
    ts1: int,
    ident2: Seq<char>,
    ts2: int,
)
    requires
        spec_entry_id(ident1, ts1) > spec_entry_id(ident2, ts2),
    ensures
        spec_time_bucket(ts1) >= spec_time_bucket(ts2),
{
    if spec_time_bucket(ts1) < spec_time_bucket(ts2) {
        crate::ids::lemma_entry_id_chronological(ident1, ts1, ident2, ts2);
    }
}

// ---------------------------------------------------------------------------
// Pagination boundaries
// ---------------------------------------------------------------------------
/// Pages at or below 1 are read as page 1.
pub proof fn lemma_page_clamped<T>(s: Seq<T>, page: int, per_page: int)
    requires
        page <= 1,
    ensures
        page_slice(s, page, per_page) == page_slice(s, 1, per_page),
{
}

/// A page that starts at or past the end of the data is empty, never an
/// error.
pub proof fn lemma_page_beyond<T>(s: Seq<T>, page: int, per_page: int)
    requires
        per_page >= 0,
        per_page * ((if page < 1 {
            1int
        } else {
            page
        }) - 1) >= s.len(),
    ensures
        page_slice(s, page, per_page) == Seq::<T>::empty(),
{
    assert(page_slice(s, page, per_page) =~= Seq::<T>::empty());
}

// ---------------------------------------------------------------------------
// Tag filtering
// ---------------------------------------------------------------------------
/// A filtered element came from the unfiltered sequence.
proof fn lemma_filter_elem_of<A>(s: Seq<A>, p: spec_fn(A) -> bool, x: A)
    requires
        s.filter(p).contains(x),
    ensures
        s.contains(x),
    decreases s.len(),
{
    reveal(Seq::filter);
    if s.len() > 0 {
        let sub = s.drop_last().filter(p);
        if p(s.last()) && x == s.last() {
            assert(s[s.len() - 1] == x);
        } else {
            if p(s.last()) {
                let i = choose|i: int| 0 <= i < s.filter(p).len() && s.filter(p)[i] == x;
                assert(i < s.filter(p).len() - 1);
                assert(sub[i] == x);
                assert(sub.contains(x));
            }
            lemma_filter_elem_of(s.drop_last(), p, x);
            let i = choose|i: int| 0 <= i < s.drop_last().len() && s.drop_last()[i] == x;
            assert(s[i] == x);
        }
    }
}

/// An entry appears in the tag-filtered listing exactly when it is in the
/// reverse-chronological listing and its feed carries one of the tags.
pub proof fn lemma_tag_filter(
    em: Map<u64, Seq<u8>>,
    tm: Map<u64, Seq<u8>>,
    tags: Seq<Seq<char>>,
    e: EntryV,
)
    requires
        tags.len() > 0,
    ensures
        entry_listing(em, tm, tags).contains(e) <==> (entry_rows(em).reverse().contains(e)
            && feed_tag_match(tm, e.feed_id, tags)),
{
    let rev = entry_rows(em).reverse();
    let pred = entry_pred(tm, tags);
    rev.filter_lemma(pred);
    if rev.filter(pred).contains(e) {
        let i = choose|i: int| 0 <= i < rev.filter(pred).len() && rev.filter(pred)[i] == e;
        assert(pred(rev.filter(pred)[i]));
        lemma_filter_elem_of(rev, pred, e);
    }
    if rev.contains(e) && feed_tag_match(tm, e.feed_id, tags) {
        let i = choose|i: int| 0 <= i < rev.len() && rev[i] == e;
        assert(pred(rev[i]));
        assert(rev.filter(pred).contains(rev[i]));
    }
}

// ---------------------------------------------------------------------------
// Orphan tolerance
// ---------------------------------------------------------------------------
/// The ids other than `x`.
pub open spec fn keeps_other(x: u64) -> spec_fn(u64) -> bool {
    |k: u64| k != x
}

proof fn lemma_filter_remove_key(em: Map<u64, Seq<u8>>, ids: Seq<u64>, x: u64)
    ensures
        ids.filter(stored_pred(em.remove(x))) == ids.filter(keeps_other(x)).filter(
            stored_pred(em),
        ),
    decreases ids.len(),
{
    reveal(Seq::filter);
    if ids.len() > 0 {
        let s = ids.drop_last();
        let k = ids.last();
        lemma_filter_remove_key(em, s, x);
        if k != x {
            lemma_filter_push(s.filter(keeps_other(x)), k, stored_pred(em));
            assert(s.filter(keeps_other(x)).push(k).drop_last() =~= s.filter(keeps_other(x)));
        }
    }
}

/// Deleting an entry row out-of-band leaves the starred resolution exactly
/// the resolution without that id: the dangling id is silently dropped,
/// nothing else changes and no error arises.
pub proof fn lemma_orphan_tolerated(em: Map<u64, Seq<u8>>, ids: Seq<u64>, x: u64)
    ensures
        resolve_starred(em.remove(x), ids) == resolve_starred(
            em,
            ids.filter(keeps_other(x)),
        ),
{
    lemma_filter_remove_key(em, ids, x);
    let a = ids.filter(stored_pred(em.remove(x)));
    a.filter_lemma(stored_pred(em.remove(x)));
    assert forall|i: int| 0 <= i < a.len() implies #[trigger] a[i] != x && em.remove(x).contains_key(
        a[i],
    ) && em.remove(x)[a[i]] == em[a[i]] by {
        assert(stored_pred(em.remove(x))(a[i]));
    }
    assert(resolve_starred(em.remove(x), ids) =~= resolve_starred(
        em,
        ids.filter(keeps_other(x)),
    ));
}

} // verus!
