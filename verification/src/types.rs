//! The stored records: subscriptions, entries and taggings, with their
//! views, their byte encodings and the constructors that build them from a
//! parsed feed document.

use crate::codec::{
    dec_i64_at, dec_opt_str_at, dec_str_at, dec_u64_at, enc_i64, enc_opt_str, enc_str, enc_u64,
    lemma_dec_i64_enc, lemma_dec_opt_str_enc, lemma_dec_str_enc, lemma_dec_u64_enc, opt_str_fits,
    opt_str_view, push_i64, push_opt_str, push_str, push_u64, read_i64, read_opt_str, read_str,
    read_u64, str_fits,
};
use crate::feed::{ContentMedium, Feed, Item, ItemV, MediaContent, MediaContentV};
use crate::ids::{spec_entry_id, EntryId, FeedId, TaggingId};
use vstd::prelude::*;

verus! {

// ---------------------------------------------------------------------------
// Subscription
// ---------------------------------------------------------------------------
/// A user's record of following a feed.
#[derive(Debug, Clone, PartialEq, Eq)]
pub struct Subscription {
    pub id: FeedId,
    pub created_at: i64,
    pub feed_id: FeedId,
    pub title: String,
    pub feed_url: String,
    pub site_url: String,
}

pub struct SubscriptionV {
    pub id: u64,
    pub created_at: i64,
    pub feed_id: u64,
    pub title: Seq<char>,
    pub feed_url: Seq<char>,
    pub site_url: Seq<char>,
}

impl View for Subscription {
    type V = SubscriptionV;

    open spec fn view(&self) -> SubscriptionV {
        SubscriptionV {
            id: self.id.0,
            created_at: self.created_at,
            feed_id: self.feed_id.0,
            title: self.title@,
            feed_url: self.feed_url@,
            site_url: self.site_url@,
        }
    }
}

pub open spec fn subscription_fits(v: SubscriptionV) -> bool {
    str_fits(v.title) && str_fits(v.feed_url) && str_fits(v.site_url)
}

pub open spec fn enc_subscription(v: SubscriptionV) -> Seq<u8> {
    enc_u64(v.id) + enc_u64(v.feed_id) + enc_i64(v.created_at) + enc_str(v.title) + enc_str(
        v.feed_url,
    ) + enc_str(v.site_url)
}

pub open spec fn dec_subscription(b: Seq<u8>) -> Option<SubscriptionV> {
    match dec_u64_at(b, 0) {
        None => None,
        Some(p1) => match dec_u64_at(b, p1.1) {
            None => None,
            Some(p2) => match dec_i64_at(b, p2.1) {
                None => None,
                Some(p3) => match dec_str_at(b, p3.1) {
                    None => None,
                    Some(p4) => match dec_str_at(b, p4.1) {
                        None => None,
                        Some(p5) => match dec_str_at(b, p5.1) {
                            None => None,
                            Some(p6) => if p6.1 == b.len() {
                                Some(
                                    SubscriptionV {
                                        id: p1.0,
                                        feed_id: p2.0,
                                        created_at: p3.0,
                                        title: p4.0,
                                        feed_url: p5.0,
                                        site_url: p6.0,
                                    },
                                )
                            } else {
                                None
                            },
                        },
                    },
                },
            },
        },
    }
}

/// Decoding an encoded subscription yields the subscription back.
pub proof fn lemma_dec_subscription_enc(v: SubscriptionV)
    requires
        subscription_fits(v),
    ensures
        dec_subscription(enc_subscription(v)) == Some(v),
{
    vstd::bytes::lemma_auto_spec_u64_to_from_le_bytes();
    let c1 = enc_u64(v.id);
    let c2 = enc_u64(v.feed_id);
    let c3 = enc_i64(v.created_at);
    let c4 = enc_str(v.title);
    let c5 = enc_str(v.feed_url);
    let c6 = enc_str(v.site_url);
    let b = enc_subscription(v);
    let e = Seq::<u8>::empty();
    assert(b =~= e + c1 + (c2 + c3 + c4 + c5 + c6));
    lemma_dec_u64_enc(e, v.id, c2 + c3 + c4 + c5 + c6);
    assert(b =~= c1 + c2 + (c3 + c4 + c5 + c6));
    lemma_dec_u64_enc(c1, v.feed_id, c3 + c4 + c5 + c6);
    assert(b =~= (c1 + c2) + c3 + (c4 + c5 + c6));
    lemma_dec_i64_enc(c1 + c2, v.created_at, c4 + c5 + c6);
    assert(b =~= (c1 + c2 + c3) + c4 + (c5 + c6));
    lemma_dec_str_enc(c1 + c2 + c3, v.title, c5 + c6);
    assert(b =~= (c1 + c2 + c3 + c4) + c5 + c6);
    lemma_dec_str_enc(c1 + c2 + c3 + c4, v.feed_url, c6);
    assert(b =~= (c1 + c2 + c3 + c4 + c5) + c6 + e);
    lemma_dec_str_enc(c1 + c2 + c3 + c4 + c5, v.site_url, e);
}

impl Subscription {
    /// Encodes this subscription as its stored bytes.
    pub fn encode(&self) -> (r: Vec<u8>)
        ensures
            r@ == enc_subscription(self@),
    {
        let mut out: Vec<u8> = Vec::new();
        push_u64(&mut out, self.id.0);
        push_u64(&mut out, self.feed_id.0);
        push_i64(&mut out, self.created_at);
        push_str(&mut out, self.title.as_str());
        push_str(&mut out, self.feed_url.as_str());
        push_str(&mut out, self.site_url.as_str());
        proof {
            assert(out@ =~= enc_subscription(self@));
        }
        out
    }

    /// Decodes a stored subscription; rejects bytes that are not exactly
    /// an encoded subscription.
    pub fn decode(b: &[u8]) -> (r: Option<Subscription>)
        ensures
            match r {
                Some(s) => dec_subscription(b@) == Some(s@),
                None => dec_subscription(b@) is None,
            },
    {
        let p1 = match read_u64(b, 0) {
            Some(p) => p,
            None => {
                return None;
            },
        };
        let p2 = match read_u64(b, p1.1) {
            Some(p) => p,
            None => {
                return None;
            },
        };
        let p3 = match read_i64(b, p2.1) {
            Some(p) => p,
            None => {
                return None;
            },
        };
        let p4 = match read_str(b, p3.1) {
            Some(p) => p,
            None => {
                return None;
            },
        };
        let p5 = match read_str(b, p4.1) {
            Some(p) => p,
            None => {
                return None;
            },
        };
        let p6 = match read_str(b, p5.1) {
            Some(p) => p,
            None => {
                return None;
            },
        };
        if p6.1 != b.len() {
            return None;
        }
        Some(
            Subscription {
                id: FeedId(p1.0),
                feed_id: FeedId(p2.0),
                created_at: p3.0,
                title: p4.0,
                feed_url: p5.0,
                site_url: p6.0,
            },
        )
    }

    /// Builds the subscription row for a freshly fetched feed.
    pub fn from_feed(id: FeedId, feed: &Feed, feed_url: &str, created_at: i64) -> (r: Subscription)
        ensures
            r.id == id,
            r.feed_id == id,
            r.created_at == created_at,
            r.title@ == feed.channel.title@,
            r.feed_url@ == feed_url@,
            r.site_url@ == feed.channel.link@,
    {
        Subscription {
            id,
            feed_id: id,
            created_at,
            title: feed.channel.title.clone(),
            feed_url: String::from_str(feed_url),
            site_url: feed.channel.link.clone(),
        }
    }
}

// ---------------------------------------------------------------------------
// Entry
// ---------------------------------------------------------------------------
/// The first media attachment's address, if the item carries an image.
#[derive(Debug, Clone, PartialEq, Eq)]
pub struct Image {
    pub url: String,
}

/// One ingested item of a feed; never mutated after insertion.
#[derive(Debug, Clone, PartialEq, Eq)]
pub struct Entry {
    pub id: EntryId,
    pub feed_id: FeedId,
    pub title: Option<String>,
    pub url: Option<String>,
    pub extracted_content_url: Option<String>,
    pub author: Option<String>,
    pub content: Option<String>,
    pub summary: Option<String>,
    pub published: i64,
    pub created_at: i64,
    pub image: Option<Image>,
}

pub struct EntryV {
    pub id: u64,
    pub feed_id: u64,
    pub title: Option<Seq<char>>,
    pub url: Option<Seq<char>>,
    pub extracted_content_url: Option<Seq<char>>,
    pub author: Option<Seq<char>>,
    pub content: Option<Seq<char>>,
    pub summary: Option<Seq<char>>,
    pub published: i64,
    pub created_at: i64,
    pub image: Option<Seq<char>>,
}

pub open spec fn image_view(i: Option<Image>) -> Option<Seq<char>> {
    match i {
        None => None,
        Some(img) => Some(img.url@),
    }
}

impl View for Entry {
    type V = EntryV;

    open spec fn view(&self) -> EntryV {
        EntryV {
            id: self.id.0,
            feed_id: self.feed_id.0,
            title: opt_str_view(self.title),
            url: opt_str_view(self.url),
            extracted_content_url: opt_str_view(self.extracted_content_url),
            author: opt_str_view(self.author),
            content: opt_str_view(self.content),
            summary: opt_str_view(self.summary),
            published: self.published,
            created_at: self.created_at,
            image: image_view(self.image),
        }
    }
}

pub open spec fn entry_fits(v: EntryV) -> bool {
    opt_str_fits(v.title) && opt_str_fits(v.url) && opt_str_fits(v.extracted_content_url)
        && opt_str_fits(v.author) && opt_str_fits(v.content) && opt_str_fits(v.summary)
        && opt_str_fits(v.image)
}

pub open spec fn enc_entry(v: EntryV) -> Seq<u8> {
    enc_u64(v.id) + enc_u64(v.feed_id) + enc_opt_str(v.title) + enc_opt_str(v.url) + enc_opt_str(
        v.extracted_content_url,
    ) + enc_opt_str(v.author) + enc_opt_str(v.content) + enc_opt_str(v.summary) + enc_i64(
        v.published,
    ) + enc_i64(v.created_at) + enc_opt_str(v.image)
}

pub open spec fn dec_entry(b: Seq<u8>) -> Option<EntryV> {
    match dec_u64_at(b, 0) {
        None => None,
        Some(p1) => match dec_u64_at(b, p1.1) {
            None => None,
            Some(p2) => match dec_opt_str_at(b, p2.1) {
                None => None,
                Some(p3) => match dec_opt_str_at(b, p3.1) {
                    None => None,
                    Some(p4) => match dec_opt_str_at(b, p4.1) {
                        None => None,
                        Some(p5) => match dec_opt_str_at(b, p5.1) {
                            None => None,
                            Some(p6) => match dec_opt_str_at(b, p6.1) {
                                None => None,
                                Some(p7) => match dec_opt_str_at(b, p7.1) {
                                    None => None,
                                    Some(p8) => match dec_i64_at(b, p8.1) {
                                        None => None,
                                        Some(p9) => match dec_i64_at(b, p9.1) {
                                            None => None,
                                            Some(p10) => match dec_opt_str_at(b, p10.1) {
                                                None => None,
                                                Some(p11) => if p11.1 == b.len() {
                                                    Some(
                                                        EntryV {
                                                            id: p1.0,
                                                            feed_id: p2.0,
                                                            title: p3.0,
                                                            url: p4.0,
                                                            extracted_content_url: p5.0,
                                                            author: p6.0,
                                                            content: p7.0,
                                                            summary: p8.0,
                                                            published: p9.0,
                                                            created_at: p10.0,
                                                            image: p11.0,
                                                        },
                                                    )
                                                } else {
                                                    None
                                                },
                                            },
                                        },
                                    },
                                },
                            },
                        },
                    },
                },
            },
        },
    }
}

/// Re-associations of an eleven-chunk concatenation, one for each field
/// position of an encoded entry.
#[verifier::spinoff_prover]
proof fn lemma_entry_chunks(
    c1: Seq<u8>,
    c2: Seq<u8>,
    c3: Seq<u8>,
    c4: Seq<u8>,
    c5: Seq<u8>,
    c6: Seq<u8>,
    c7: Seq<u8>,
    c8: Seq<u8>,
    c9: Seq<u8>,
    c10: Seq<u8>,
    c11: Seq<u8>,
)
    ensures
        c1 + c2 + c3 + c4 + c5 + c6 + c7 + c8 + c9 + c10 + c11 == Seq::<u8>::empty() + c1 + (c2
            + c3 + c4 + c5 + c6 + c7 + c8 + c9 + c10 + c11),
        c1 + c2 + c3 + c4 + c5 + c6 + c7 + c8 + c9 + c10 + c11 == c1 + c2 + (c3 + c4 + c5 + c6 + c7
            + c8 + c9 + c10 + c11),
        c1 + c2 + c3 + c4 + c5 + c6 + c7 + c8 + c9 + c10 + c11 == (c1 + c2) + c3 + (c4 + c5 + c6
            + c7 + c8 + c9 + c10 + c11),
        c1 + c2 + c3 + c4 + c5 + c6 + c7 + c8 + c9 + c10 + c11 == (c1 + c2 + c3) + c4 + (c5 + c6
            + c7 + c8 + c9 + c10 + c11),
        c1 + c2 + c3 + c4 + c5 + c6 + c7 + c8 + c9 + c10 + c11 == (c1 + c2 + c3 + c4) + c5 + (c6
            + c7 + c8 + c9 + c10 + c11),
        c1 + c2 + c3 + c4 + c5 + c6 + c7 + c8 + c9 + c10 + c11 == (c1 + c2 + c3 + c4 + c5) + c6 + (
        c7 + c8 + c9 + c10 + c11),
        c1 + c2 + c3 + c4 + c5 + c6 + c7 + c8 + c9 + c10 + c11 == (c1 + c2 + c3 + c4 + c5 + c6)
            + c7 + (c8 + c9 + c10 + c11),
        c1 + c2 + c3 + c4 + c5 + c6 + c7 + c8 + c9 + c10 + c11 == (c1 + c2 + c3 + c4 + c5 + c6
            + c7) + c8 + (c9 + c10 + c11),
        c1 + c2 + c3 + c4 + c5 + c6 + c7 + c8 + c9 + c10 + c11 == (c1 + c2 + c3 + c4 + c5 + c6 + c7
            + c8) + c9 + (c10 + c11),
        c1 + c2 + c3 + c4 + c5 + c6 + c7 + c8 + c9 + c10 + c11 == (c1 + c2 + c3 + c4 + c5 + c6 + c7
            + c8 + c9) + c10 + c11,
        c1 + c2 + c3 + c4 + c5 + c6 + c7 + c8 + c9 + c10 + c11 == (c1 + c2 + c3 + c4 + c5 + c6 + c7
            + c8 + c9 + c10) + c11 + Seq::<u8>::empty(),
{
    let b = c1 + c2 + c3 + c4 + c5 + c6 + c7 + c8 + c9 + c10 + c11;
    assert(b =~= Seq::<u8>::empty() + c1 + (c2 + c3 + c4 + c5 + c6 + c7 + c8 + c9 + c10 + c11));
    assert(b =~= c1 + c2 + (c3 + c4 + c5 + c6 + c7 + c8 + c9 + c10 + c11));
    assert(b =~= (c1 + c2) + c3 + (c4 + c5 + c6 + c7 + c8 + c9 + c10 + c11));
    assert(b =~= (c1 + c2 + c3) + c4 + (c5 + c6 + c7 + c8 + c9 + c10 + c11));
    assert(b =~= (c1 + c2 + c3 + c4) + c5 + (c6 + c7 + c8 + c9 + c10 + c11));
    assert(b =~= (c1 + c2 + c3 + c4 + c5) + c6 + (c7 + c8 + c9 + c10 + c11));
    assert(b =~= (c1 + c2 + c3 + c4 + c5 + c6) + c7 + (c8 + c9 + c10 + c11));
    assert(b =~= (c1 + c2 + c3 + c4 + c5 + c6 + c7) + c8 + (c9 + c10 + c11));
    assert(b =~= (c1 + c2 + c3 + c4 + c5 + c6 + c7 + c8) + c9 + (c10 + c11));
    assert(b =~= (c1 + c2 + c3 + c4 + c5 + c6 + c7 + c8 + c9) + c10 + c11);
    assert(b =~= (c1 + c2 + c3 + c4 + c5 + c6 + c7 + c8 + c9 + c10) + c11 + Seq::<u8>::empty());
}

/// Decoding an encoded entry yields the entry back.
#[verifier::rlimit(100)]
pub proof fn lemma_dec_entry_enc(v: EntryV)
    requires
        entry_fits(v),
    ensures
        dec_entry(enc_entry(v)) == Some(v),
{
    let c1 = enc_u64(v.id);
    let c2 = enc_u64(v.feed_id);
    let c3 = enc_opt_str(v.title);
    let c4 = enc_opt_str(v.url);
    let c5 = enc_opt_str(v.extracted_content_url);
    let c6 = enc_opt_str(v.author);
    let c7 = enc_opt_str(v.content);
    let c8 = enc_opt_str(v.summary);
    let c9 = enc_i64(v.published);
    let c10 = enc_i64(v.created_at);
    let c11 = enc_opt_str(v.image);
    let b = enc_entry(v);
    let e = Seq::<u8>::empty();
    lemma_entry_chunks(c1, c2, c3, c4, c5, c6, c7, c8, c9, c10, c11);
    assert(c1.len() == 8 && c2.len() == 8 && c9.len() == 8 && c10.len() == 8) by {
        vstd::bytes::lemma_auto_spec_u64_to_from_le_bytes();
    }
    let o3: int = 16 + c3.len() as int;
    let o4: int = o3 + c4.len() as int;
    let o5: int = o4 + c5.len() as int;
    let o6: int = o5 + c6.len() as int;
    let o7: int = o6 + c7.len() as int;
    let o8: int = o7 + c8.len() as int;
    let o9: int = o8 + 8;
    let o10: int = o9 + 8;
    let o11: int = o10 + c11.len() as int;
    assert(dec_u64_at(b, 0) == Some((v.id, 8int))) by {
        lemma_dec_u64_enc(e, v.id, c2 + c3 + c4 + c5 + c6 + c7 + c8 + c9 + c10 + c11);
    }
    assert(dec_u64_at(b, 8) == Some((v.feed_id, 16int))) by {
        lemma_dec_u64_enc(c1, v.feed_id, c3 + c4 + c5 + c6 + c7 + c8 + c9 + c10 + c11);
    }
    assert(dec_opt_str_at(b, 16) == Some((v.title, o3))) by {
        lemma_dec_opt_str_enc(c1 + c2, v.title, c4 + c5 + c6 + c7 + c8 + c9 + c10 + c11);
    }
    assert(dec_opt_str_at(b, o3) == Some((v.url, o4))) by {
        lemma_dec_opt_str_enc(c1 + c2 + c3, v.url, c5 + c6 + c7 + c8 + c9 + c10 + c11);
    }
    assert(dec_opt_str_at(b, o4) == Some((v.extracted_content_url, o5))) by {
        lemma_dec_opt_str_enc(
            c1 + c2 + c3 + c4,
            v.extracted_content_url,
            c6 + c7 + c8 + c9 + c10 + c11,
        );
    }
    assert(dec_opt_str_at(b, o5) == Some((v.author, o6))) by {
        lemma_dec_opt_str_enc(c1 + c2 + c3 + c4 + c5, v.author, c7 + c8 + c9 + c10 + c11);
    }
    assert(dec_opt_str_at(b, o6) == Some((v.content, o7))) by {
        lemma_dec_opt_str_enc(c1 + c2 + c3 + c4 + c5 + c6, v.content, c8 + c9 + c10 + c11);
    }
    assert(dec_opt_str_at(b, o7) == Some((v.summary, o8))) by {
        lemma_dec_opt_str_enc(c1 + c2 + c3 + c4 + c5 + c6 + c7, v.summary, c9 + c10 + c11);
    }
    assert(dec_i64_at(b, o8) == Some((v.published, o9))) by {
        lemma_dec_i64_enc(c1 + c2 + c3 + c4 + c5 + c6 + c7 + c8, v.published, c10 + c11);
    }
    assert(dec_i64_at(b, o9) == Some((v.created_at, o10))) by {
        lemma_dec_i64_enc(c1 + c2 + c3 + c4 + c5 + c6 + c7 + c8 + c9, v.created_at, c11);
    }
    assert(dec_opt_str_at(b, o10) == Some((v.image, o11))) by {
        lemma_dec_opt_str_enc(c1 + c2 + c3 + c4 + c5 + c6 + c7 + c8 + c9 + c10, v.image, e);
    }
    assert(o11 == b.len());
    assert(dec_entry(b) == Some(v));
}

impl Entry {
    /// Encodes this entry as its stored bytes.
    pub fn encode(&self) -> (r: Vec<u8>)
        ensures
            r@ == enc_entry(self@),
    {
        let mut out: Vec<u8> = Vec::new();
        push_u64(&mut out, self.id.0);
        push_u64(&mut out, self.feed_id.0);
        push_opt_str(&mut out, &self.title);
        push_opt_str(&mut out, &self.url);
        push_opt_str(&mut out, &self.extracted_content_url);
        push_opt_str(&mut out, &self.author);
        push_opt_str(&mut out, &self.content);
        push_opt_str(&mut out, &self.summary);
        push_i64(&mut out, self.published);
        push_i64(&mut out, self.created_at);
        match &self.image {
            None => {
                out.push(0u8);
            },
            Some(img) => {
                out.push(1u8);
                push_str(&mut out, img.url.as_str());
            },
        }
        proof {
            assert(out@ =~= enc_entry(self@));
        }
        out
    }

    /// Decodes a stored entry; rejects bytes that are not exactly an
    /// encoded entry.
    pub fn decode(b: &[u8]) -> (r: Option<Entry>)
        ensures
            match r {
                Some(s) => dec_entry(b@) == Some(s@),
                None => dec_entry(b@) is None,
            },
    {
        let p1 = match read_u64(b, 0) {
            Some(p) => p,
            None => {
                return None;
            },
        };
        let p2 = match read_u64(b, p1.1) {
            Some(p) => p,
            None => {
                return None;
            },
        };
        let p3 = match read_opt_str(b, p2.1) {
            Some(p) => p,
            None => {
                return None;
            },
        };
        let p4 = match read_opt_str(b, p3.1) {
            Some(p) => p,
            None => {
                return None;
            },
        };
        let p5 = match read_opt_str(b, p4.1) {
            Some(p) => p,
            None => {
                return None;
            },
        };
        let p6 = match read_opt_str(b, p5.1) {
            Some(p) => p,
            None => {
                return None;
            },
        };
        let p7 = match read_opt_str(b, p6.1) {
            Some(p) => p,
            None => {
                return None;
            },
        };
        let p8 = match read_opt_str(b, p7.1) {
            Some(p) => p,
            None => {
                return None;
            },
        };
        let p9 = match read_i64(b, p8.1) {
            Some(p) => p,
            None => {
                return None;
            },
        };
        let p10 = match read_i64(b, p9.1) {
            Some(p) => p,
            None => {
                return None;
            },
        };
        let p11 = match read_opt_str(b, p10.1) {
            Some(p) => p,
            None => {
                return None;
            },
        };
        if p11.1 != b.len() {
            return None;
        }
        let image: Option<Image> = match p11.0 {
            Some(u) => Some(Image { url: u }),
            None => None,
        };
        Some(
            Entry {
                id: EntryId(p1.0),
                feed_id: FeedId(p2.0),
                title: p3.0,
                url: p4.0,
                extracted_content_url: p5.0,
                author: p6.0,
                content: p7.0,
                summary: p8.0,
                published: p9.0,
                created_at: p10.0,
                image,
            },
        )
    }
}

// ---------------------------------------------------------------------------
// Deriving an entry from a feed item
// ---------------------------------------------------------------------------
/// An item's identity text: its guid if present, else its link. An item
/// with neither has no derivable identity and is skipped.
pub open spec fn spec_item_ident(i: ItemV) -> Option<Seq<char>> {
    match i.guid {
        Some(g) => Some(g.value),
        None => i.link,
    }
}

/// An item's publish time in unix seconds; absent or unparsable dates fall
/// back to the epoch, so the derived id stays a pure function of content.
pub open spec fn spec_item_published(i: ItemV) -> i64 {
    match i.pub_date {
        Some(t) => t,
        None => 0,
    }
}

/// The entry's content: the explicit content field, else the encoded
/// content, else the description.
pub open spec fn spec_item_content(i: ItemV) -> Option<Seq<char>> {
    if i.content is Some {
        i.content
    } else if i.content_encoded is Some {
        i.content_encoded
    } else {
        i.description
    }
}

/// Whether a media attachment is an image: declared medium "image", or a
/// MIME type starting with "image/".
pub open spec fn media_is_image(m: MediaContentV) -> bool {
    m.medium == Some(ContentMedium::Image) || (m.mime_type matches Some(t)
        && crate::feed::spec_starts_with(t, "image/"@))
}

/// The address of the first image attachment, if any.
pub open spec fn spec_item_image(ms: Seq<MediaContentV>) -> Option<Seq<char>>
    decreases ms.len(),
{
    if ms.len() == 0 {
        None
    } else if media_is_image(ms[0]) {
        Some(ms[0].url)
    } else {
        spec_item_image(ms.drop_first())
    }
}

proof fn lemma_item_image_skip(ms: Seq<MediaContentV>, k: int)
    requires
        0 <= k <= ms.len(),
        forall|j: int| 0 <= j < k ==> !media_is_image(ms[j]),
    ensures
        spec_item_image(ms) == spec_item_image(ms.skip(k)),
    decreases k,
{
    if k == 0 {
        assert(ms.skip(0) =~= ms);
    } else {
        assert(!media_is_image(ms[0]));
        assert forall|j: int| 0 <= j < k - 1 implies !media_is_image(ms.drop_first()[j]) by {
            assert(ms.drop_first()[j] == ms[j + 1]);
            assert(!media_is_image(ms[j + 1]));
        }
        lemma_item_image_skip(ms.drop_first(), k - 1);
        assert(ms.drop_first().skip(k - 1) =~= ms.skip(k));
    }
}

/// The entry derived from an item with a derivable identity.
pub open spec fn spec_entry_of_item(feed_id: u64, i: ItemV, created_at: i64) -> EntryV {
    EntryV {
        id: spec_entry_id(spec_item_ident(i)->0, spec_item_published(i) as int),
        feed_id: feed_id,
        title: i.title,
        url: i.link,
        extracted_content_url: None,
        author: i.author,
        content: spec_item_content(i),
        summary: i.description,
        published: spec_item_published(i),
        created_at: created_at,
        image: spec_item_image(i.media_content),
    }
}

fn clone_opt_str(s: &Option<String>) -> (r: Option<String>)
    ensures
        opt_str_view(r) == opt_str_view(*s),
{
    match s {
        Some(v) => Some(v.clone()),
        None => None,
    }
}

impl Entry {
    /// Builds the entry for one item of a fetched feed, or nothing when
    /// the item has no derivable identity.
    pub fn from_item(feed_id: FeedId, item: &Item, created_at: i64) -> (r: Option<Entry>)
        ensures
            match r {
                Some(e) => spec_item_ident(item@) is Some && e@ == spec_entry_of_item(
                    feed_id.0,
                    item@,
                    created_at,
                ),
                None => spec_item_ident(item@) is None,
            },
    {
        let ident: &String = match &item.guid {
            Some(g) => &g.value,
            None => match &item.link {
                Some(l) => l,
                None => {
                    return None;
                },
            },
        };
        let published: i64 = match item.pub_date {
            Some(t) => t,
            None => 0,
        };
        let id = EntryId::from_ident_and_date(ident.as_str(), published);
        let content: Option<String> = if item.content.is_some() {
            clone_opt_str(&item.content)
        } else if item.content_encoded.is_some() {
            clone_opt_str(&item.content_encoded)
        } else {
            clone_opt_str(&item.description)
        };
        let ghost ms = item@.media_content;
        let n = item.media_content.len();
        let mut k: usize = 0;
        let mut image: Option<Image> = None;
        while k < n && image.is_none()
            invariant
                k <= n,
                n == item.media_content@.len(),
                ms == item@.media_content,
                ms == item.media_content@.map_values(|m: MediaContent| m@),
                match image {
                    None => forall|j: int| 0 <= j < k ==> !media_is_image(ms[j]),
                    Some(img) => spec_item_image(ms) == Some(img.url@),
                },
            decreases n - k,
        {
            let m = &item.media_content[k];
            let by_medium: bool = match m.medium {
                Some(ContentMedium::Image) => true,
                _ => false,
            };
            let by_mime: bool = match &m.mime_type {
                Some(t) => crate::feed::str_starts_with(t.as_str(), "image/"),
                None => false,
            };
            if by_medium || by_mime {
                proof {
                    lemma_item_image_skip(ms, k as int);
                    assert(ms.skip(k as int)[0] == ms[k as int]);
                    assert(media_is_image(ms[k as int]));
                }
                image = Some(Image { url: m.url.clone() });
            }
            k = k + 1;
        }
        if image.is_none() {
            proof {
                lemma_item_image_skip(ms, k as int);
            }
        }
        Some(
            Entry {
                id,
                feed_id,
                title: clone_opt_str(&item.title),
                url: clone_opt_str(&item.link),
                extracted_content_url: None,
                author: clone_opt_str(&item.author),
                content,
                summary: clone_opt_str(&item.description),
                published,
                created_at,
                image,
            },
        )
    }
}

// ---------------------------------------------------------------------------
// Tagging
// ---------------------------------------------------------------------------
/// An association between a feed and a user-defined tag label.
#[derive(Debug, Clone, PartialEq, Eq)]
pub struct Tagging {
    pub id: TaggingId,
    pub feed_id: FeedId,
    pub name: String,
}

pub struct TaggingV {
    pub id: u64,
    pub feed_id: u64,
    pub name: Seq<char>,
}

impl View for Tagging {
    type V = TaggingV;

    open spec fn view(&self) -> TaggingV {
        TaggingV { id: self.id.0, feed_id: self.feed_id.0, name: self.name@ }
    }
}

pub open spec fn tagging_fits(v: TaggingV) -> bool {
    str_fits(v.name)
}

pub open spec fn enc_tagging(v: TaggingV) -> Seq<u8> {
    enc_u64(v.id) + enc_u64(v.feed_id) + enc_str(v.name)
}

pub open spec fn dec_tagging(b: Seq<u8>) -> Option<TaggingV> {
    match dec_u64_at(b, 0) {
        None => None,
        Some(p1) => match dec_u64_at(b, p1.1) {
            None => None,
            Some(p2) => match dec_str_at(b, p2.1) {
                None => None,
                Some(p3) => if p3.1 == b.len() {
                    Some(TaggingV { id: p1.0, feed_id: p2.0, name: p3.0 })
                } else {
                    None
                },
            },
        },
    }
}

/// Decoding an encoded tagging yields the tagging back.
pub proof fn lemma_dec_tagging_enc(v: TaggingV)
    requires
        tagging_fits(v),
    ensures
        dec_tagging(enc_tagging(v)) == Some(v),
{
    vstd::bytes::lemma_auto_spec_u64_to_from_le_bytes();
    let c1 = enc_u64(v.id);
    let c2 = enc_u64(v.feed_id);
    let c3 = enc_str(v.name);
    let b = enc_tagging(v);
    let e = Seq::<u8>::empty();
    assert(b =~= e + c1 + (c2 + c3));
    lemma_dec_u64_enc(e, v.id, c2 + c3);
    assert(b =~= c1 + c2 + c3);
    lemma_dec_u64_enc(c1, v.feed_id, c3);
    assert(b =~= (c1 + c2) + c3 + e);
    lemma_dec_str_enc(c1 + c2, v.name, e);
}

impl Tagging {
    /// Builds the tagging row for a feed and a tag label.
    pub fn new(id: TaggingId, feed_id: FeedId, name: &str) -> (r: Tagging)
        ensures
            r.id == id,
            r.feed_id == feed_id,
            r.name@ == name@,
    {
        Tagging { id, feed_id, name: String::from_str(name) }
    }

    /// Encodes this tagging as its stored bytes.
    pub fn encode(&self) -> (r: Vec<u8>)
        ensures
            r@ == enc_tagging(self@),
    {
        let mut out: Vec<u8> = Vec::new();
        push_u64(&mut out, self.id.0);
        push_u64(&mut out, self.feed_id.0);
        push_str(&mut out, self.name.as_str());
        proof {
            assert(out@ =~= enc_tagging(self@));
        }
        out
    }

    /// Decodes a stored tagging; rejects bytes that are not exactly an
    /// encoded tagging.
    pub fn decode(b: &[u8]) -> (r: Option<Tagging>)
        ensures
            match r {
                Some(t) => dec_tagging(b@) == Some(t@),
                None => dec_tagging(b@) is None,
            },
    {
        let p1 = match read_u64(b, 0) {
            Some(p) => p,
            None => {
                return None;
            },
        };
        let p2 = match read_u64(b, p1.1) {
            Some(p) => p,
            None => {
                return None;
            },
        };
        let p3 = match read_str(b, p2.1) {
            Some(p) => p,
            None => {
                return None;
            },
        };
        if p3.1 != b.len() {
            return None;
        }
        Some(Tagging { id: TaggingId(p1.0), feed_id: FeedId(p2.0), name: p3.0 })
    }
}

} // verus!
