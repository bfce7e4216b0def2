//! Stored form of the replay cache: eight bytes of magic, then one record of
//! twenty-four bytes per entry, its key and its second as eight big-endian
//! bytes.
//!
//! Fixed-width records load with one read and no parser.

use crate::bytes::{be_bytes, be_read_u64, be_value, bytes_eq, lemma_be_bytes_len,
    lemma_be_limits, lemma_be_round_trip, to_array16};
use crate::clock::{instant_nanos, is_now, is_unix_now, instant_read, now_instant, now_unix};
use crate::replay::cache_laws::{dated_entries, lemma_dated_entries, lemma_takes_over, takes_over};
use crate::replay::{adopted, encode_records, lemma_snapshot_keys, live_records, pair_views,
    reloaded, snapshot, stamps, ReplayCache};
use std::time::Instant;
use vstd::prelude::*;

verus! {

/// What a stored cache begins with: `GTHMRPL1`.
pub const MAGIC: [u8; 8] = [0x47, 0x54, 0x48, 0x4d, 0x52, 0x50, 0x4c, 0x31];

/// The size of one record.
pub const RECORD: usize = 24;

/// Why stored bytes are no replay cache.
#[derive(Debug, Copy, Clone, PartialEq, Eq, Structural)]
pub enum SnapshotError {
    /// They do not begin with the magic.
    BadMagic,
    /// The last record is not whole.
    Truncated,
}

impl SnapshotError {
    /// The error in words.
    pub fn message(&self) -> (text: &'static str)
        ensures
            text@ == match *self {
                SnapshotError::BadMagic => "replay cache: bad magic"@,
                SnapshotError::Truncated => "replay cache: truncated record"@,
            },
    {
        match self {
            SnapshotError::BadMagic => "replay cache: bad magic",
            SnapshotError::Truncated => "replay cache: truncated record",
        }
    }
}

/// The records that `body` spells, one per twenty-four bytes.
pub open spec fn decode_records(body: Seq<u8>) -> Seq<(Seq<u8>, u64)> {
    Seq::new(
        body.len() / 24,
        |i: int|
            (
                body.subrange(24 * i, 24 * i + 16),
                be_value(body.subrange(24 * i + 16, 24 * i + 24)) as u64,
            ),
    )
}

/// What stored bytes hold.
pub open spec fn parse_snapshot(bytes: Seq<u8>) -> Result<Seq<(Seq<u8>, u64)>, SnapshotError> {
    if bytes.len() < 8 || bytes.take(8) != MAGIC@ {
        Err(SnapshotError::BadMagic)
    } else if (bytes.len() - 8) % 24 != 0 {
        Err(SnapshotError::Truncated)
    } else {
        Ok(decode_records(bytes.skip(8)))
    }
}

/// The stored form of `records`.
pub open spec fn render_snapshot(records: Seq<(Seq<u8>, u64)>) -> Seq<u8> {
    MAGIC@ + encode_records(records)
}

/// Whether every key is sixteen bytes long.
pub open spec fn keyed(records: Seq<(Seq<u8>, u64)>) -> bool {
    forall|i: int| 0 <= i < records.len() ==> (#[trigger] records[i]).0.len() == 16
}

/// The stored form of a cache, now. In memory only.
pub fn encode(cache: &ReplayCache) -> (buf: Vec<u8>)
    ensures
        exists|now: int, at: u64|
            {
                &&& is_now(now)
                &&& is_unix_now(at)
                &&& buf@ == render_snapshot(
                    #[trigger] snapshot(cache@, now, at, cache.ttl_nanos()),
                )
            },
{
    let unix: u64 = now_unix();
    let now: Instant = now_instant();
    let buf: Vec<u8> = cache.encode_into(now, unix, MAGIC.as_slice(), RECORD);
    assert(buf@ == render_snapshot(
        snapshot(cache@, instant_nanos(now), unix, cache.ttl_nanos()),
    ));
    buf
}

/// How many records stored bytes of this length hold.
pub fn record_count(buf: &[u8]) -> (n: usize)
    ensures
        n == if buf@.len() < 8 {
            0
        } else {
            (buf@.len() - 8) / 24
        },
{
    buf.len().saturating_sub(MAGIC.len()) / RECORD
}

/// The bytes to store for a cache, now, and how many entries they hold.
pub fn save(cache: &ReplayCache) -> (r: (Vec<u8>, usize))
    requires
        cache.wf(),
    ensures
        exists|now: int, at: u64|
            {
                let records = #[trigger] snapshot(cache@, now, at, cache.ttl_nanos());
                &&& is_now(now)
                &&& is_unix_now(at)
                &&& r.0@ == render_snapshot(records)
                &&& r.1 == records.len()
            },
{
    let buf: Vec<u8> = encode(cache);
    let n: usize = record_count(buf.as_slice());
    proof {
        let (now, at) = choose|now: int, at: u64|
            {
                &&& is_now(now)
                &&& is_unix_now(at)
                &&& buf@ == render_snapshot(
                    #[trigger] snapshot(cache@, now, at, cache.ttl_nanos()),
                )
            };
        cache.lemma_keys_are_sixteen_bytes();
        lemma_snapshot_keys(cache@, now, at, cache.ttl_nanos());
        lemma_encoding_length(snapshot(cache@, now, at, cache.ttl_nanos()));
    }
    (buf, n)
}

/// Reads stored bytes back. A foreign or torn file is refused as a whole
/// rather than read in part.
pub fn decode(bytes: &[u8]) -> (r: Result<Vec<([u8; 16], u64)>, SnapshotError>)
    ensures
        match r {
            Ok(pairs) => parse_snapshot(bytes@) == Ok::<_, SnapshotError>(pair_views(pairs@)),
            Err(e) => parse_snapshot(bytes@) == Err::<Seq<(Seq<u8>, u64)>, _>(e),
        },
{
    if bytes.len() < MAGIC.len() || !bytes_eq(
        vstd::slice::slice_subrange(bytes, 0, 8),
        MAGIC.as_slice(),
    ) {
        assert(bytes@.len() >= 8 ==> bytes@.subrange(0, 8) =~= bytes@.take(8));
        return Err(SnapshotError::BadMagic);
    }
    assert(bytes@.subrange(0, 8) =~= bytes@.take(8));
    let end: usize = bytes.len();
    let total: usize = end - MAGIC.len();
    if total % RECORD != 0 {
        return Err(SnapshotError::Truncated);
    }
    let count: usize = total / RECORD;
    let ghost body = bytes@.skip(8);
    let ghost records = decode_records(body);
    let mut pairs: Vec<([u8; 16], u64)> = Vec::with_capacity(count);
    let mut i: usize = 0;
    assert(pair_views(pairs@) =~= records.take(0));
    while i < count
        invariant
            i <= count,
            24 * count + 8 == end,
            end == bytes@.len(),
            body == bytes@.skip(8),
            records == decode_records(body),
            records.len() == count,
            pair_views(pairs@) == records.take(i as int),
        decreases count - i,
    {
        let at: usize = 8 + 24 * i;
        let key: [u8; 16] = to_array16(vstd::slice::slice_subrange(bytes, at, at + 16));
        let second: u64 = be_read_u64(vstd::slice::slice_subrange(bytes, at + 16, at + 24));
        let ghost before = pairs@;
        pairs.push((key, second));
        proof {
            assert(bytes@.subrange(at as int, at + 16) =~= body.subrange(24 * i, 24 * i + 16));
            assert(bytes@.subrange(at + 16, at + 24) =~= body.subrange(
                24 * i + 16,
                24 * i + 24,
            ));
            assert(pair_views(pairs@) =~= pair_views(before).push((key@, second)));
            assert(records.take(i + 1) =~= records.take(i as int).push(records[i as int]));
        }
        i = i + 1;
    }
    assert(records.take(i as int) =~= records);
    Ok(pairs)
}

/// Loads stored bytes into the cache; `None` stands for a file that does not
/// exist, which is the first run and no error. Returns how many entries were
/// taken over. The cache is left alone where the bytes are refused.
pub fn load(cache: &mut ReplayCache, stored: Option<&[u8]>) -> (r: Result<usize, SnapshotError>)
    requires
        old(cache).wf(),
    ensures
        final(cache).wf(),
        final(cache).ttl_nanos() == old(cache).ttl_nanos(),
        final(cache).capacity() == old(cache).capacity(),
        stored is None ==> r == Ok::<usize, SnapshotError>(0) && final(cache)@ == old(cache)@,
        stored matches Some(bytes) ==> match parse_snapshot(bytes@) {
            Err(e) => r == Err::<usize, SnapshotError>(e) && final(cache)@ == old(cache)@,
            Ok(records) => r is Ok && exists|now: Instant, at: u64, seen: Seq<(Seq<u8>, int)>|
                {
                    &&& instant_read(now)
                    &&& is_unix_now(at)
                    &&& #[trigger] stamps(
                        live_records(records, at, old(cache).ttl_nanos()),
                        now,
                        at,
                        seen,
                    )
                    &&& final(cache)@ == reloaded(old(cache)@, seen, old(cache).capacity())
                    &&& r->Ok_0 == adopted(old(cache)@, seen, old(cache).capacity()).len()
                },
        },
{
    match stored {
        None => Ok(0),
        Some(bytes) => match decode(bytes) {
            Err(e) => Err(e),
            Ok(pairs) => {
                let unix: u64 = now_unix();
                let now: Instant = now_instant();
                let count: usize = cache.restore_at(pairs.as_slice(), now, unix);
                proof {
                    let seen = choose|seen: Seq<(Seq<u8>, int)>|
                        {
                            &&& #[trigger] stamps(
                                live_records(pair_views(pairs@), unix, old(cache).ttl_nanos()),
                                now,
                                unix,
                                seen,
                            )
                            &&& cache@ == reloaded(old(cache)@, seen, old(cache).capacity())
                            &&& count == adopted(old(cache)@, seen, old(cache).capacity()).len()
                        };
                    assert(stamps(
                        live_records(pair_views(pairs@), unix, old(cache).ttl_nanos()),
                        now,
                        unix,
                        seen,
                    ));
                    assert(parse_snapshot(bytes@)->Ok_0 == pair_views(pairs@));
                }
                Ok(count)
            },
        },
    }
}

/// The encoding of records takes twenty-four bytes each.
pub proof fn lemma_encoding_length(records: Seq<(Seq<u8>, u64)>)
    requires
        keyed(records),
    ensures
        encode_records(records).len() == 24 * records.len(),
    decreases records.len(),
{
    if records.len() > 0 {
        assert forall|i: int| 0 <= i < records.drop_last().len() implies (
        #[trigger] records.drop_last()[i]).0.len() == 16 by {
            assert(records.drop_last()[i] == records[i]);
        }
        lemma_encoding_length(records.drop_last());
        lemma_be_bytes_len(records.last().1 as nat, 8);
        assert(records.last() == records[records.len() - 1]);
    }
}

/// Reading the body of an encoding gives back the records.
proof fn lemma_decode_inverts_encode(records: Seq<(Seq<u8>, u64)>)
    requires
        keyed(records),
    ensures
        decode_records(encode_records(records)) == records,
    decreases records.len(),
{
    let body = encode_records(records);
    lemma_encoding_length(records);
    if records.len() > 0 {
        let front = records.drop_last();
        let last = records.last();
        assert forall|i: int| 0 <= i < front.len() implies (#[trigger] front[i]).0.len() == 16 by {
            assert(front[i] == records[i]);
        }
        lemma_encoding_length(front);
        lemma_decode_inverts_encode(front);
        let head = encode_records(front);
        let stamp = be_bytes(last.1 as nat, 8);
        lemma_be_bytes_len(last.1 as nat, 8);
        lemma_be_limits();
        lemma_be_round_trip(last.1 as nat, 8);
        assert(last == records[records.len() - 1]);
        assert(body == head + last.0 + stamp);
        assert forall|i: int| 0 <= i < records.len() implies decode_records(body)[i]
            == records[i] by {
            if i < front.len() {
                assert(body.subrange(24 * i, 24 * i + 16) =~= head.subrange(24 * i, 24 * i + 16));
                assert(body.subrange(24 * i + 16, 24 * i + 24) =~= head.subrange(
                    24 * i + 16,
                    24 * i + 24,
                ));
                assert(decode_records(head)[i] == front[i]);
            } else {
                assert(body.subrange(24 * i, 24 * i + 16) =~= last.0);
                assert(body.subrange(24 * i + 16, 24 * i + 24) =~= stamp);
            }
        }
    }
    assert(decode_records(body) =~= records);
}

/// What was stored is read back: the bytes that stand for a snapshot parse to
/// that snapshot.
pub proof fn stored_snapshot_reads_back(records: Seq<(Seq<u8>, u64)>)
    requires
        keyed(records),
    ensures
        parse_snapshot(render_snapshot(records)) == Ok::<_, SnapshotError>(records),
{
    let bytes = render_snapshot(records);
    lemma_encoding_length(records);
    lemma_decode_inverts_encode(records);
    assert(bytes.take(8) =~= MAGIC@);
    assert(bytes.skip(8) =~= encode_records(records));
}

/// Whether bytes spell records: the eight letters `GTHMRPL1`, then twenty-four
/// bytes for each record, its key and its second, most significant byte first.
pub open spec fn spells(bytes: Seq<u8>, records: Seq<(Seq<u8>, u64)>) -> bool {
    &&& bytes.len() == 8 + 24 * records.len()
    &&& bytes.take(8) == seq![71u8, 84u8, 72u8, 77u8, 82u8, 80u8, 76u8, 49u8]
    &&& forall|j: int|
        0 <= j < records.len() ==> {
            &&& (#[trigger] records[j]).0 == bytes.subrange(8 + 24 * j, 24 + 24 * j)
            &&& records[j].1 == be_value(bytes.subrange(24 + 24 * j, 32 + 24 * j))
        }
}

/// Bytes that are accepted spell what is read from them, and no others are
/// refused but foreign and torn ones.
proof fn lemma_spells(bytes: Seq<u8>)
    ensures
        match parse_snapshot(bytes) {
            Ok(records) => spells(bytes, records),
            Err(SnapshotError::BadMagic) => bytes.len() < 8 || bytes.take(8) != seq![
                71u8,
                84u8,
                72u8,
                77u8,
                82u8,
                80u8,
                76u8,
                49u8,
            ],
            Err(SnapshotError::Truncated) => bytes.len() >= 8 && (bytes.len() - 8) % 24 != 0
                && bytes.take(8) == seq![71u8, 84u8, 72u8, 77u8, 82u8, 80u8, 76u8, 49u8],
        },
{
    let name = seq![71u8, 84u8, 72u8, 77u8, 82u8, 80u8, 76u8, 49u8];
    assert(MAGIC@ =~= name);
    if let Ok(records) = parse_snapshot(bytes) {
        let body = bytes.skip(8);
        assert forall|j: int| 0 <= j < records.len() implies {
            &&& (#[trigger] records[j]).0 == bytes.subrange(8 + 24 * j, 24 + 24 * j)
            &&& records[j].1 == be_value(bytes.subrange(24 + 24 * j, 32 + 24 * j))
        } by {
            assert(body.subrange(24 * j, 24 * j + 16) =~= bytes.subrange(8 + 24 * j, 24 + 24 * j));
            assert(body.subrange(24 * j + 16, 24 * j + 24) =~= bytes.subrange(
                24 + 24 * j,
                32 + 24 * j,
            ));
            crate::bytes::lemma_be_value_bound(bytes.subrange(24 + 24 * j, 32 + 24 * j));
            lemma_be_limits();
        }
    }
}

/// A stored cache spells its live entries, each with the second in which it was
/// seen, and counts them.
pub proof fn a_stored_cache_spells_its_live_entries(
    cache: &ReplayCache,
    buf: Vec<u8>,
    saved: (Vec<u8>, usize),
)
    requires
        call_ensures(encode, (cache,), buf),
        call_ensures(save, (cache,), saved),
    ensures
        exists|now: int, at: u64, picked: Seq<int>, pairs: Seq<(Seq<u8>, u64)>|
            {
                &&& is_now(now)
                &&& is_unix_now(at)
                &&& #[trigger] dated_entries(cache@, now, at, cache.ttl_nanos(), picked, pairs)
                &&& spells(buf@, pairs)
            },
        exists|now: int, at: u64, picked: Seq<int>, pairs: Seq<(Seq<u8>, u64)>|
            {
                &&& is_now(now)
                &&& is_unix_now(at)
                &&& #[trigger] dated_entries(cache@, now, at, cache.ttl_nanos(), picked, pairs)
                &&& spells(saved.0@, pairs)
                &&& saved.1 == pairs.len()
            },
{
    cache.lemma_keys_are_sixteen_bytes();
    let ttl = cache.ttl_nanos();
    let (now, at) = choose|now: int, at: u64|
        {
            &&& is_now(now)
            &&& is_unix_now(at)
            &&& buf@ == render_snapshot(#[trigger] snapshot(cache@, now, at, ttl))
        };
    let pairs = snapshot(cache@, now, at, ttl);
    let picked = lemma_dated_entries(cache@, now, at, ttl);
    lemma_snapshot_keys(cache@, now, at, ttl);
    stored_snapshot_reads_back(pairs);
    lemma_spells(buf@);
    assert(dated_entries(cache@, now, at, ttl, picked, pairs));
    let (later, then_at) = choose|now: int, at: u64|
        {
            let records = #[trigger] snapshot(cache@, now, at, ttl);
            &&& is_now(now)
            &&& is_unix_now(at)
            &&& saved.0@ == render_snapshot(records)
            &&& saved.1 == records.len()
        };
    let kept = snapshot(cache@, later, then_at, ttl);
    let chosen = lemma_dated_entries(cache@, later, then_at, ttl);
    lemma_snapshot_keys(cache@, later, then_at, ttl);
    stored_snapshot_reads_back(kept);
    lemma_spells(saved.0@);
    assert(dated_entries(cache@, later, then_at, ttl, chosen, kept));
}

/// Stored bytes are read as what they spell, whole or not at all: bytes that
/// begin otherwise are foreign, and bytes that do not end with a record are
/// torn.
pub proof fn stored_bytes_are_read_whole_or_not(
    bytes: &[u8],
    r: Result<Vec<([u8; 16], u64)>, SnapshotError>,
)
    requires
        call_ensures(decode, (bytes,), r),
    ensures
        ({
            let named = bytes@.len() >= 8 && bytes@.take(8) == seq![
                71u8,
                84u8,
                72u8,
                77u8,
                82u8,
                80u8,
                76u8,
                49u8,
            ];
            &&& r is Ok <==> named && (bytes@.len() - 8) % 24 == 0
            &&& r == Err::<Vec<([u8; 16], u64)>, SnapshotError>(SnapshotError::BadMagic) <==> !named
            &&& r matches Ok(pairs) ==> spells(bytes@, pair_views(pairs@))
        }),
{
    lemma_spells(bytes@);
}

/// As many records are counted as there are whole ones behind the first eight
/// bytes.
pub proof fn records_are_counted_by_their_size(buf: &[u8], n: usize)
    requires
        call_ensures(record_count, (buf,), n),
    ensures
        buf@.len() >= 8 ==> 8 + 24 * n <= buf@.len() < 8 + 24 * (n + 1),
        buf@.len() < 8 ==> n == 0,
{
}

/// A cache is filled from stored bytes with what is live of what they spell, and
/// what was taken over is counted. Nothing stored fills in nothing, and bytes
/// that are refused leave the cache alone.
pub proof fn stored_bytes_fill_a_cache(
    cache: &mut ReplayCache,
    stored: Option<&[u8]>,
    r: Result<usize, SnapshotError>,
)
    requires
        old(cache).wf(),
        call_ensures(load, (cache, stored), r),
    ensures
        stored is None ==> r == Ok::<usize, SnapshotError>(0) && final(cache)@ == old(cache)@,
        r is Err ==> final(cache)@ == old(cache)@,
        stored matches Some(bytes) ==> match r {
            Err(SnapshotError::BadMagic) => bytes@.len() < 8 || bytes@.take(8) != seq![
                71u8,
                84u8,
                72u8,
                77u8,
                82u8,
                80u8,
                76u8,
                49u8,
            ],
            Err(SnapshotError::Truncated) => bytes@.len() >= 8 && (bytes@.len() - 8) % 24 != 0,
            Ok(count) => exists|now: Instant, at: u64, records: Seq<(Seq<u8>, u64)>|
                {
                    &&& instant_read(now)
                    &&& is_unix_now(at)
                    &&& spells(bytes@, records)
                    &&& #[trigger] takes_over(
                        old(cache)@,
                        records,
                        now,
                        at,
                        old(cache).ttl_nanos(),
                        old(cache).capacity(),
                        final(cache)@,
                    )
                    &&& final(cache)@.len() == old(cache)@.len() + count
                },
        },
        final(cache).ttl_nanos() == old(cache).ttl_nanos(),
        final(cache).capacity() == old(cache).capacity(),
{
    if let Some(bytes) = stored {
        lemma_spells(bytes@);
        old(cache).lemma_entries_are_bounded();
        if let Ok(records) = parse_snapshot(bytes@) {
            let was = old(cache)@;
            let ttl = old(cache).ttl_nanos();
            let room = old(cache).capacity();
            let (now, at, seen) = choose|now: Instant, at: u64, seen: Seq<(Seq<u8>, int)>|
                {
                    &&& instant_read(now)
                    &&& is_unix_now(at)
                    &&& #[trigger] stamps(live_records(records, at, ttl), now, at, seen)
                    &&& final(cache)@ == reloaded(was, seen, room)
                    &&& r->Ok_0 == adopted(was, seen, room).len()
                };
            lemma_takes_over(was, records, now, at, ttl, room, seen);
            assert(takes_over(was, records, now, at, ttl, room, final(cache)@));
        }
    }
}

/// Each refusal has words of its own.
pub proof fn refusals_have_their_own_words(
    a: &SnapshotError,
    b: &SnapshotError,
    said_a: &'static str,
    said_b: &'static str,
)
    requires
        call_ensures(SnapshotError::message, (a,), said_a),
        call_ensures(SnapshotError::message, (b,), said_b),
        *a != *b,
    ensures
        said_a@ != said_b@,
{
    reveal_strlit("replay cache: bad magic");
    reveal_strlit("replay cache: truncated record");
    assert("replay cache: bad magic"@.len() != "replay cache: truncated record"@.len());
}

/// A buffer begins with what it was asked to begin with, and goes on with the
/// live entries of the cache as the stored form has them.
pub proof fn a_buffer_begins_as_asked(
    cache: &ReplayCache,
    now: Instant,
    now_unix: u64,
    magic: &[u8],
    record: usize,
    buf: Vec<u8>,
)
    requires
        call_ensures(ReplayCache::encode_into, (cache, now, now_unix, magic, record), buf),
    ensures
        buf@.len() >= magic@.len(),
        buf@.take(magic@.len() as int) == magic@,
        exists|picked: Seq<int>, pairs: Seq<(Seq<u8>, u64)>|
            {
                &&& #[trigger] dated_entries(
                    cache@,
                    instant_nanos(now),
                    now_unix,
                    cache.ttl_nanos(),
                    picked,
                    pairs,
                )
                &&& spells(
                    seq![71u8, 84u8, 72u8, 77u8, 82u8, 80u8, 76u8, 49u8] + buf@.skip(
                        magic@.len() as int,
                    ),
                    pairs,
                )
            },
{
    cache.lemma_keys_are_sixteen_bytes();
    let ttl = cache.ttl_nanos();
    let t = instant_nanos(now);
    let pairs = snapshot(cache@, t, now_unix, ttl);
    let picked = lemma_dated_entries(cache@, t, now_unix, ttl);
    lemma_snapshot_keys(cache@, t, now_unix, ttl);
    assert(buf@.take(magic@.len() as int) =~= magic@);
    assert(buf@.skip(magic@.len() as int) =~= encode_records(pairs));
    assert(MAGIC@ =~= seq![71u8, 84u8, 72u8, 77u8, 82u8, 80u8, 76u8, 49u8]);
    let stored = render_snapshot(pairs);
    stored_snapshot_reads_back(pairs);
    lemma_spells(stored);
}

} // verus!
