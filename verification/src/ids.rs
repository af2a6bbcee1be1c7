//! Identifier scheme: engine-generated ids for feeds and taggings, and
//! content-derived ids for entries.
//!
//! An entry id packs a coarse timestamp bucket into its high 32 bits and a
//! Fletcher-16 checksum of the item's identity text into the next 16 bits,
//! so that ascending numeric order of entry ids is ascending chronological
//! order, and re-ingesting the same item always derives the same id.

use vstd::prelude::*;

verus! {

/// Identifier of a subscribed feed, drawn from the storage engine's counter.
#[derive(Debug, Clone, Copy, PartialEq, Eq, Structural)]
pub struct FeedId(pub u64);

/// Identifier of a feed/tag association, drawn from the engine's counter.
#[derive(Debug, Clone, Copy, PartialEq, Eq, Structural)]
pub struct TaggingId(pub u64);

/// Identifier of an ingested entry, derived from the item's identity text
/// and publish time.
#[derive(Debug, Clone, Copy, PartialEq, Eq, Structural)]
pub struct EntryId(pub u64);

/// Running state of the Fletcher-16 checksum after the given bytes:
/// both accumulators are reduced modulo 255 at every step.
pub open spec fn fletcher_state(bytes: Seq<u8>) -> (int, int)
    decreases bytes.len(),
{
    if bytes.len() == 0 {
        (0int, 0int)
    } else {
        let prev = fletcher_state(bytes.drop_last());
        let s1 = (prev.0 + bytes.last()) % 255;
        ((s1), (prev.1 + s1) % 255)
    }
}

/// The Fletcher-16 checksum of a byte sequence: high byte is the second
/// accumulator, low byte the first.
pub open spec fn spec_fletcher16(bytes: Seq<u8>) -> u16 {
    (fletcher_state(bytes).1 * 256 + fletcher_state(bytes).0) as u16
}

pub proof fn lemma_fletcher_state_bounds(bytes: Seq<u8>)
    ensures
        0 <= fletcher_state(bytes).0 < 255,
        0 <= fletcher_state(bytes).1 < 255,
    decreases bytes.len(),
{
    if bytes.len() > 0 {
        lemma_fletcher_state_bounds(bytes.drop_last());
    }
}

/// Fletcher-16 checksum with two accumulators reduced modulo 255.
pub fn fletcher16(bytes: &[u8]) -> (r: u16)
    ensures
        r == spec_fletcher16(bytes@),
{
    let mut sum1: u16 = 0;
    let mut sum2: u16 = 0;
    let mut i: usize = 0;
    while i < bytes.len()
        invariant
            i <= bytes@.len(),
            sum1 == fletcher_state(bytes@.take(i as int)).0,
            sum2 == fletcher_state(bytes@.take(i as int)).1,
            sum1 < 255,
            sum2 < 255,
        decreases bytes@.len() - i,
    {
        proof {
            assert(bytes@.take(i + 1).drop_last() =~= bytes@.take(i as int));
            assert(bytes@.take(i + 1).last() == bytes@[i as int]);
        }
        sum1 = (sum1 + bytes[i] as u16) % 255;
        sum2 = (sum2 + sum1) % 255;
        i = i + 1;
    }
    proof {
        assert(bytes@.take(bytes@.len() as int) =~= bytes@);
        assert(((sum2 << 8) | sum1) == sum2 * 256 + sum1) by (bit_vector)
            requires
                sum1 < 255 && sum2 < 255,
        ;
    }
    (sum2 << 8) | sum1
}

/// Division truncated toward zero, as the hardware performs it, for a
/// positive divisor.
pub open spec fn div_toward_zero(a: int, b: int) -> int {
    if a >= 0 {
        a / b
    } else {
        -((-a) / b)
    }
}

/// The coarse timestamp bucket stored in an entry id's high 32 bits: the
/// publish time in unix seconds, divided by 1000 and truncated to 32 bits.
pub open spec fn spec_time_bucket(ts: int) -> u32 {
    (div_toward_zero(ts, 1000) % 0x1_0000_0000) as u32
}

/// Computes the timestamp bucket of a publish time given in unix seconds.
pub fn time_bucket(ts: i64) -> (r: u32)
    ensures
        r == spec_time_bucket(ts as int),
{
    if ts >= 0 {
        let q: u64 = (ts as u64) / 1000;
        (q % 0x1_0000_0000) as u32
    } else {
        // magnitude of ts, computed without overflowing at i64::MIN
        let m: u64 = ((-(ts + 1)) as u64) + 1;
        let q: u64 = m / 1000;
        let r: u64 = q % 0x1_0000_0000;
        proof {
            lemma_neg_mod(q as int, 0x1_0000_0000);
        }
        if r == 0 {
            0
        } else {
            (0x1_0000_0000u64 - r) as u32
        }
    }
}

/// For a nonnegative q and positive m, the Euclidean remainder of -q is 0
/// when m divides q, and m - q % m otherwise.
proof fn lemma_neg_mod(q: int, m: int)
    requires
        q >= 0,
        m > 0,
    ensures
        q % m == 0 ==> (-q) % m == 0,
        q % m != 0 ==> (-q) % m == m - q % m,
{
    vstd::arithmetic::div_mod::lemma_fundamental_div_mod(q, m);
    let qd = q / m;
    let r0 = q % m;
    if r0 == 0 {
        assert(-q == (-qd) * m + 0) by (nonlinear_arith)
            requires
                q == m * qd + r0 && r0 == 0,
        ;
        vstd::arithmetic::div_mod::lemma_fundamental_div_mod_converse(-q, m, -qd, 0);
    } else {
        assert(-q == (-qd - 1) * m + (m - r0)) by (nonlinear_arith)
            requires
                q == m * qd + r0,
        ;
        vstd::arithmetic::div_mod::lemma_fundamental_div_mod_converse(-q, m, -qd - 1, m - r0);
    }
}

/// The entry id derived from an item's identity text and publish time:
/// timestamp bucket in the high 32 bits, Fletcher-16 checksum of the
/// identity's UTF-8 bytes in the next 16, low 16 bits zero.
pub open spec fn spec_entry_id(ident: Seq<char>, ts: int) -> u64 {
    (spec_time_bucket(ts) * 0x1_0000_0000 + spec_fletcher16(vstd::utf8::encode_utf8(ident))
        * 0x1_0000) as u64
}

impl EntryId {
    /// Derives the stable entry id of an item from its identity text and
    /// its publish time in unix seconds.
    pub fn from_ident_and_date(ident: &str, published_unix: i64) -> (r: EntryId)
        ensures
            r.0 == spec_entry_id(ident@, published_unix as int),
    {
        let bucket: u32 = time_bucket(published_unix);
        let check: u16 = fletcher16(ident.as_bytes());
        let id: u64 = ((bucket as u64) << 32) | ((check as u64) << 16);
        proof {
            let b = bucket as u64;
            let c = check as u64;
            assert((b << 32) | (c << 16) == b * 0x1_0000_0000 + c * 0x1_0000) by (bit_vector)
                requires
                    b < 0x1_0000_0000 && c < 0x1_0000,
            ;
        }
        EntryId(id)
    }
}

/// Whether the text is one or more decimal digits.
pub open spec fn spec_is_digits(s: Seq<char>) -> bool {
    s.len() > 0 && forall|i: int| 0 <= i < s.len() ==> '0' <= #[trigger] s[i] <= '9'
}

/// The number the decimal digits denote.
pub open spec fn spec_digits_value(s: Seq<char>) -> int
    decreases s.len(),
{
    if s.len() == 0 {
        0
    } else {
        spec_digits_value(s.drop_last()) * 10 + (s.last() as int - 48)
    }
}

proof fn lemma_digits_value_nonneg(s: Seq<char>)
    requires
        forall|i: int| 0 <= i < s.len() ==> '0' <= #[trigger] s[i] <= '9',
    ensures
        spec_digits_value(s) >= 0,
    decreases s.len(),
{
    if s.len() > 0 {
        lemma_digits_value_nonneg(s.drop_last());
        assert(s.last() as int >= 48);
        assert(spec_digits_value(s.drop_last()) * 10 >= 0) by (nonlinear_arith)
            requires
                spec_digits_value(s.drop_last()) >= 0,
        ;
    }
}

/// Reading more digits never shrinks the denoted number.
proof fn lemma_digits_value_take_le(s: Seq<char>, k: int)
    requires
        0 <= k <= s.len(),
        forall|i: int| 0 <= i < s.len() ==> '0' <= #[trigger] s[i] <= '9',
    ensures
        spec_digits_value(s.take(k)) <= spec_digits_value(s),
    decreases s.len() - k,
{
    if k == s.len() {
        assert(s.take(k) =~= s);
    } else {
        assert(s.take(k + 1).drop_last() =~= s.take(k));
        assert(s.take(k + 1).last() == s[k]);
        let v = spec_digits_value(s.take(k));
        lemma_digits_value_nonneg(s.take(k));
        assert(v * 10 >= v) by (nonlinear_arith)
            requires
                v >= 0,
        ;
        assert(s[k] as int >= 48);
        lemma_digits_value_take_le(s, k + 1);
    }
}

/// Reads a base-ten number: accepts exactly the texts made of decimal
/// digits whose value fits 64 bits, and returns that value.
pub fn parse_u64(s: &str) -> (r: Option<u64>)
    ensures
        match r {
            Some(v) => spec_is_digits(s@) && v == spec_digits_value(s@),
            None => !spec_is_digits(s@) || spec_digits_value(s@) > u64::MAX,
        },
{
    let n = s.unicode_len();
    if n == 0 {
        return None;
    }
    let mut acc: u64 = 0;
    let mut i: usize = 0;
    while i < n
        invariant
            0 < n == s@.len(),
            i <= n,
            forall|j: int| 0 <= j < i ==> '0' <= #[trigger] s@[j] <= '9',
            acc == spec_digits_value(s@.take(i as int)),
        decreases n - i,
    {
        let c = s.get_char(i);
        if c < '0' || c > '9' {
            return None;
        }
        let d: u64 = (c as u32 - 48) as u64;
        proof {
            assert(s@.take(i + 1).drop_last() =~= s@.take(i as int));
            assert(s@.take(i + 1).last() == s@[i as int]);
        }
        let next = match acc.checked_mul(10) {
            Some(m) => m.checked_add(d),
            None => None,
        };
        acc = match next {
            Some(v) => v,
            None => {
                proof {
                    if spec_is_digits(s@) {
                        lemma_digits_value_take_le(s@, i + 1);
                    }
                }
                return None;
            },
        };
        i = i + 1;
    }
    proof {
        assert(s@.take(n as int) =~= s@);
    }
    Some(acc)
}

impl FeedId {
    /// Reads a feed id from its decimal text form.
    pub fn from_str(s: &str) -> (r: Option<FeedId>)
        ensures
            match r {
                Some(id) => spec_is_digits(s@) && id.0 == spec_digits_value(s@),
                None => !spec_is_digits(s@) || spec_digits_value(s@) > u64::MAX,
            },
    {
        match parse_u64(s) {
            Some(v) => Some(FeedId(v)),
            None => None,
        }
    }
}

impl TaggingId {
    /// Reads a tagging id from its decimal text form.
    pub fn from_str(s: &str) -> (r: Option<TaggingId>)
        ensures
            match r {
                Some(id) => spec_is_digits(s@) && id.0 == spec_digits_value(s@),
                None => !spec_is_digits(s@) || spec_digits_value(s@) > u64::MAX,
            },
    {
        match parse_u64(s) {
            Some(v) => Some(TaggingId(v)),
            None => None,
        }
    }
}

/// Entry ids order chronologically: an item in a strictly earlier timestamp
/// bucket derives a strictly smaller id, whatever the identity texts are.
pub proof fn lemma_entry_id_chronological(ident1: Seq<char>, ts1: int, ident2: Seq<char>, ts2: int)
    requires
        spec_time_bucket(ts1) < spec_time_bucket(ts2),
    ensures
        spec_entry_id(ident1, ts1) < spec_entry_id(ident2, ts2),
{
    let b1 = spec_time_bucket(ts1) as int;
    let b2 = spec_time_bucket(ts2) as int;
    let c1 = spec_fletcher16(vstd::utf8::encode_utf8(ident1)) as int;
    let c2 = spec_fletcher16(vstd::utf8::encode_utf8(ident2)) as int;
    lemma_fletcher_state_bounds(vstd::utf8::encode_utf8(ident1));
    lemma_fletcher_state_bounds(vstd::utf8::encode_utf8(ident2));
    assert(b1 * 0x1_0000_0000 + c1 * 0x1_0000 < (b1 + 1) * 0x1_0000_0000) by (nonlinear_arith)
        requires
            c1 < 0x1_0000,
    ;
    assert((b1 + 1) * 0x1_0000_0000 <= b2 * 0x1_0000_0000) by (nonlinear_arith)
        requires
            b1 < b2,
    ;
    assert(b2 * 0x1_0000_0000 <= b2 * 0x1_0000_0000 + c2 * 0x1_0000);
}

/// Identical identity text and publish time always derive the identical id;
/// ingestion keyed by this id is therefore idempotent under re-fetch.
pub proof fn lemma_entry_id_deterministic(ident1: Seq<char>, ts1: int, ident2: Seq<char>, ts2: int)
    requires
        ident1 == ident2,
        ts1 == ts2,
    ensures
        spec_entry_id(ident1, ts1) == spec_entry_id(ident2, ts2),
{
}

} // verus!
