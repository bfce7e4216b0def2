//! The outbound connections that a relay keeps open.
//!
//! Opening a connection costs two handshakes. A pool keeps the connection to
//! each peer for the packets that follow, up to a number of peers; beyond it,
//! the connection that was used longest ago gives way. A connection that fails
//! is dropped and a fresh one opened for the same packet.

use crate::addr::IpAddr;
use crate::bytes::bytes_eq;
use crate::clock::instant_nanos;
use std::time::Instant;
use vstd::prelude::*;

verus! {

/// How many connections a pool keeps unless told otherwise.
pub const DEFAULT_MAX_SIZE: usize = 128;

/// Seconds without use after which a connection may be given up.
pub const DEFAULT_IDLE_TTL_SECS: u64 = 300;

/// A peer: where it listens, and the key it must prove.
#[derive(Copy, Clone)]
pub struct PoolKey {
    /// Its address.
    pub ip: IpAddr,
    /// Its port.
    pub port: u16,
    /// The flow information of an IPv6 address; zero for IPv4.
    pub flow: u32,
    /// The scope of an IPv6 address, which tells the links of a host apart;
    /// zero for IPv4.
    pub scope: u32,
    /// Its X25519 public key.
    pub peer_pk: [u8; 32],
}

/// A peer as its address, its port, its flow, its scope and the bytes of its
/// key.
pub type Peer = (IpAddr, u16, u32, u32, Seq<u8>);

impl View for PoolKey {
    type V = Peer;

    open spec fn view(&self) -> Peer {
        (self.ip, self.port, self.flow, self.scope, self.peer_pk@)
    }
}

impl PoolKey {
    /// Whether two peers are the same.
    fn same(&self, other: &PoolKey) -> (same: bool)
        ensures
            same == (self@ == other@),
    {
        self.ip == other.ip && self.port == other.port && self.flow == other.flow && self.scope
            == other.scope && bytes_eq(self.peer_pk.as_slice(), other.peer_pk.as_slice())
    }
}

/// A connection that is kept open.
struct Entry<C> {
    key: PoolKey,
    conn: C,
    last_used: Instant,
}

/// The connections that are kept open, one per peer.
pub struct ConnectionPool<C> {
    entries: Vec<Entry<C>>,
    max_size: usize,
}

/// The connections of a pool, each with when it was last used.
pub type Pooled<C> = Map<Peer, (C, int)>;

/// Whether some entry is for this peer.
spec fn listed<C>(entries: Seq<Entry<C>>, key: Peer) -> bool {
    exists|i: int| 0 <= i < entries.len() && (#[trigger] entries[i]).key@ == key
}

/// Where the entry for a peer stands.
spec fn place<C>(entries: Seq<Entry<C>>, key: Peer) -> int {
    choose|i: int| 0 <= i < entries.len() && (#[trigger] entries[i]).key@ == key
}

/// No two entries are for one peer.
spec fn one_per_peer<C>(entries: Seq<Entry<C>>) -> bool {
    forall|i: int, j: int|
        0 <= i < j < entries.len() ==> (#[trigger] entries[i]).key@ != (#[trigger] entries[j]).key@
}

/// What entries hold.
spec fn pooled<C>(entries: Seq<Entry<C>>) -> Pooled<C> {
    Map::new(
        |key: Peer| listed(entries, key),
        |key: Peer|
            {
                let e = entries[place(entries, key)];
                (e.conn, instant_nanos(e.last_used))
            },
    )
}

impl<C> View for ConnectionPool<C> {
    type V = Pooled<C>;

    closed spec fn view(&self) -> Pooled<C> {
        pooled(self.entries@)
    }
}

/// Whether `key` is a peer whose connection was used longest ago; where
/// several were used at one instant, each is one.
pub open spec fn used_longest_ago<C>(pool: Pooled<C>, key: Peer) -> bool {
    &&& pool.contains_key(key)
    &&& forall|other: Peer| #[trigger] pool.contains_key(other) ==> pool[key].1 <= pool[other].1
}

/// Whether `after` is the pool with a new connection to `key`: where it was
/// full, one that was used longest ago has given way.
pub open spec fn kept<C>(
    pool: Pooled<C>,
    key: Peer,
    conn: C,
    now: int,
    max_size: nat,
    after: Pooled<C>,
) -> bool {
    if pool.len() >= max_size {
        exists|gone: Peer| #[trigger]
            used_longest_ago(pool, gone) && after == pool.remove(gone).insert(key, (conn, now))
    } else {
        after == pool.insert(key, (conn, now))
    }
}

/// What a peer's entry says is what the pool holds for it.
proof fn lemma_pooled_at<C>(entries: Seq<Entry<C>>, i: int)
    requires
        one_per_peer(entries),
        0 <= i < entries.len(),
    ensures
        pooled(entries).contains_key(entries[i].key@),
        pooled(entries)[entries[i].key@] == (entries[i].conn, instant_nanos(entries[i].last_used)),
{
    let key = entries[i].key@;
    assert(listed(entries, key));
    let p = place(entries, key);
    assert(entries[p].key@ == key);
}

/// A pool holds as many connections as it has entries.
proof fn lemma_pooled_len<C>(entries: Seq<Entry<C>>)
    requires
        one_per_peer(entries),
    ensures
        pooled(entries).dom().finite(),
        pooled(entries).len() == entries.len(),
    decreases entries.len(),
{
    if entries.len() == 0 {
        assert(pooled(entries).dom() =~= Set::<Peer>::empty());
    } else {
        let front = entries.drop_last();
        assert forall|i: int, j: int| 0 <= i < j < front.len() implies (
        #[trigger] front[i]).key@ != (#[trigger] front[j]).key@ by {
            assert(front[i] == entries[i] && front[j] == entries[j]);
        }
        lemma_pooled_len(front);
        let last = entries.last().key@;
        assert forall|key: Peer| #[trigger]
            pooled(entries).dom().contains(key) <==> pooled(front).dom().insert(last).contains(
                key,
            ) by {
            if listed(entries, key) {
                let i = place(entries, key);
                if i < front.len() {
                    assert(front[i].key@ == key);
                }
            }
            if listed(front, key) {
                let i = place(front, key);
                assert(entries[i].key@ == key);
            }
            assert(entries[entries.len() - 1].key@ == last);
        }
        assert(pooled(entries).dom() =~= pooled(front).dom().insert(last));
        if listed(front, last) {
            let i = place(front, last);
            assert(front[i] == entries[i]);
            assert(entries[i].key@ != entries[entries.len() - 1].key@);
        }
    }
}

impl<C> ConnectionPool<C> {
    /// How many connections the pool keeps.
    pub closed spec fn capacity(self) -> nat {
        self.max_size as nat
    }

    /// One connection per peer, and room for at least one.
    pub closed spec fn wf(self) -> bool {
        &&& one_per_peer(self.entries@)
        &&& 1 <= self.max_size
    }

    /// A pool holds finitely many connections and keeps at least one.
    pub proof fn lemma_finite(self)
        requires
            self.wf(),
        ensures
            self@.dom().finite(),
            1 <= self.capacity(),
    {
        lemma_pooled_len(self.entries@);
    }

    /// A pool without connections.
    pub fn new() -> (pool: ConnectionPool<C>)
        ensures
            pool.wf(),
            pool@ == Map::<Peer, (C, int)>::empty(),
            pool.capacity() == DEFAULT_MAX_SIZE,
    {
        let pool = ConnectionPool { entries: Vec::new(), max_size: DEFAULT_MAX_SIZE };
        assert(pool@ =~= Map::<Peer, (C, int)>::empty());
        pool
    }

    /// The pool with another number of connections that it keeps, but at least
    /// one.
    pub fn with_max_size(self, max_size: usize) -> (pool: ConnectionPool<C>)
        requires
            self.wf(),
        ensures
            pool.wf(),
            pool@ == self@,
            pool.capacity() == if max_size == 0 {
                1
            } else {
                max_size as nat
            },
    {
        let mut pool = self;
        pool.max_size = if max_size == 0 {
            1
        } else {
            max_size
        };
        pool
    }

    /// How many connections are open.
    pub fn len(&self) -> (n: usize)
        requires
            self.wf(),
        ensures
            n == self@.len(),
    {
        proof {
            lemma_pooled_len(self.entries@);
        }
        self.entries.len()
    }

    /// Whether no connection is open.
    pub fn is_empty(&self) -> (empty: bool)
        requires
            self.wf(),
        ensures
            empty == (self@.len() == 0),
    {
        proof {
            lemma_pooled_len(self.entries@);
        }
        self.entries.len() == 0
    }

    /// Where the entry for a peer stands.
    fn find(&self, key: &PoolKey) -> (r: Option<usize>)
        ensures
            match r {
                Some(i) => i < self.entries@.len() && self.entries@[i as int].key@ == key@,
                None => !listed(self.entries@, key@),
            },
    {
        let mut i: usize = 0;
        while i < self.entries.len()
            invariant
                i <= self.entries@.len(),
                forall|j: int| 0 <= j < i ==> (#[trigger] self.entries@[j]).key@ != key@,
            decreases self.entries@.len() - i,
        {
            if self.entries[i].key.same(key) {
                return Some(i);
            }
            i = i + 1;
        }
        None
    }

    /// The connection to a peer, if one is open.
    pub fn cached(&self, key: &PoolKey) -> (r: Option<&C>)
        requires
            self.wf(),
        ensures
            match r {
                Some(conn) => self@.contains_key(key@) && self@[key@].0 == *conn,
                None => !self@.contains_key(key@),
            },
    {
        match self.find(key) {
            Some(i) => {
                proof {
                    lemma_pooled_at(self.entries@, i as int);
                }
                Some(&self.entries[i].conn)
            },
            None => None,
        }
    }

    /// Takes how sending on an open connection went: where it was sent, the
    /// connection counts as used at `now`, and where it failed, the connection
    /// is dropped and another must be opened.
    pub fn on_cached_send(&mut self, key: &PoolKey, sent: bool, now: Instant)
        requires
            old(self).wf(),
        ensures
            final(self).wf(),
            final(self).capacity() == old(self).capacity(),
            final(self)@ == if !old(self)@.contains_key(key@) {
                old(self)@
            } else if sent {
                old(self)@.insert(key@, (old(self)@[key@].0, instant_nanos(now)))
            } else {
                old(self)@.remove(key@)
            },
    {
        match self.find(key) {
            Some(i) => {
                let ghost before = self.entries@;
                proof {
                    lemma_pooled_at(before, i as int);
                }
                if sent {
                    self.entries[i].last_used = now;
                    proof {
                        lemma_touched(before, self.entries@, i as int);
                    }
                } else {
                    self.entries.swap_remove(i);
                    proof {
                        lemma_swapped_out(before, self.entries@, i as int);
                    }
                }
            },
            None => {},
        }
    }

    /// Keeps a fresh connection that a packet was sent on at `now`.
    pub fn on_opened(&mut self, key: PoolKey, conn: C, now: Instant)
        requires
            old(self).wf(),
        ensures
            final(self).wf(),
            final(self).capacity() == old(self).capacity(),
            kept(
                old(self)@,
                key@,
                conn,
                instant_nanos(now),
                old(self).capacity(),
                final(self)@,
            ),
    {
        let ghost pool = self@;
        proof {
            lemma_pooled_len(self.entries@);
        }
        if self.entries.len() >= self.max_size {
            let oldest: usize = self.oldest();
            let ghost before = self.entries@;
            proof {
                lemma_pooled_at(before, oldest as int);
                assert(used_longest_ago(pool, before[oldest as int].key@)) by {
                    assert forall|other: Peer| #[trigger] pool.contains_key(other) implies pool[before[oldest as int].key@].1
                        <= pool[other].1 by {
                        let p = place(before, other);
                        lemma_pooled_at(before, p);
                    }
                }
            }
            self.entries.swap_remove(oldest);
            proof {
                lemma_swapped_out(before, self.entries@, oldest as int);
            }
        }
        let ghost room = self.entries@;
        match self.find(&key) {
            Some(i) => {
                self.entries.swap_remove(i);
                proof {
                    lemma_swapped_out(room, self.entries@, i as int);
                }
            },
            None => {},
        }
        let ghost without = self.entries@;
        assert(!listed(without, key@)) by {
            if listed(without, key@) {
                assert(pooled(without).contains_key(key@));
            }
        }
        self.entries.push(Entry { key, conn, last_used: now });
        proof {
            assert(self.entries@.drop_last() =~= without);
            lemma_appended(without, self.entries@);
            assert(self@ =~= pooled(room).insert(key@, (conn, instant_nanos(now))));
        }
    }

    /// An entry that was used longest ago.
    fn oldest(&self) -> (at: usize)
        requires
            self.entries@.len() > 0,
        ensures
            at < self.entries@.len(),
            forall|j: int|
                0 <= j < self.entries@.len() ==> instant_nanos(self.entries@[at as int].last_used)
                    <= instant_nanos((#[trigger] self.entries@[j]).last_used),
    {
        let mut at: usize = 0;
        let mut i: usize = 1;
        while i < self.entries.len()
            invariant
                at < i <= self.entries@.len(),
                forall|j: int|
                    0 <= j < i ==> instant_nanos(self.entries@[at as int].last_used)
                        <= instant_nanos((#[trigger] self.entries@[j]).last_used),
            decreases self.entries@.len() - i,
        {
            let least: Instant = self.entries[at].last_used;
            if least.saturating_duration_since(self.entries[i].last_used).as_nanos() > 0 {
                at = i;
            }
            i = i + 1;
        }
        at
    }
}

/// Using a connection changes when it was last used and nothing else.
proof fn lemma_touched<C>(before: Seq<Entry<C>>, after: Seq<Entry<C>>, i: int)
    requires
        one_per_peer(before),
        0 <= i < before.len(),
        after == before.update(i, after[i]),
        after[i].key == before[i].key,
        after[i].conn == before[i].conn,
    ensures
        one_per_peer(after),
        pooled(after) == pooled(before).insert(
            before[i].key@,
            (before[i].conn, instant_nanos(after[i].last_used)),
        ),
{
    let key = before[i].key@;
    assert(one_per_peer(after));
    assert forall|k: Peer| #[trigger] pooled(after).contains_key(k) <==> pooled(before).insert(
        key,
        (before[i].conn, instant_nanos(after[i].last_used)),
    ).contains_key(k) by {
        if listed(after, k) {
            let p = place(after, k);
            assert(before[p].key@ == k);
        }
        if listed(before, k) {
            let p = place(before, k);
            assert(after[p].key@ == k);
        }
        assert(after[i].key@ == key);
    }
    assert forall|k: Peer| #[trigger] pooled(after).contains_key(k) implies pooled(after)[k]
        == pooled(before).insert(key, (before[i].conn, instant_nanos(after[i].last_used)))[k] by {
        let p = place(after, k);
        lemma_pooled_at(after, p);
        lemma_pooled_at(before, p);
    }
    assert(pooled(after) =~= pooled(before).insert(
        key,
        (before[i].conn, instant_nanos(after[i].last_used)),
    ));
}

/// Taking an entry out, with the last put in its place, removes its peer.
proof fn lemma_swapped_out<C>(before: Seq<Entry<C>>, after: Seq<Entry<C>>, i: int)
    requires
        one_per_peer(before),
        0 <= i < before.len(),
        after == before.update(i, before.last()).drop_last(),
    ensures
        one_per_peer(after),
        pooled(after) == pooled(before).remove(before[i].key@),
{
    let key = before[i].key@;
    let n = before.len() - 1;
    assert forall|a: int, b: int| 0 <= a < b < after.len() implies (#[trigger] after[a]).key@ != (
    #[trigger] after[b]).key@ by {
        let x = if a == i {
            n
        } else {
            a
        };
        let y = if b == i {
            n
        } else {
            b
        };
        assert(after[a] == before[x] && after[b] == before[y]);
    }
    assert forall|k: Peer| #[trigger] pooled(after).contains_key(k) <==> pooled(before).remove(
        key,
    ).contains_key(k) by {
        if listed(after, k) {
            let p = place(after, k);
            let x = if p == i {
                n
            } else {
                p
            };
            assert(after[p] == before[x]);
            assert(before[x].key@ == k);
            assert(x != i);
        }
        if listed(before, k) && k != key {
            let p = place(before, k);
            let x = if p == n {
                i
            } else {
                p
            };
            assert(after[x].key@ == k);
        }
    }
    assert forall|k: Peer| #[trigger] pooled(after).contains_key(k) implies pooled(after)[k]
        == pooled(before).remove(key)[k] by {
        let p = place(after, k);
        let x = if p == i {
            n
        } else {
            p
        };
        assert(after[p] == before[x]);
        lemma_pooled_at(after, p);
        lemma_pooled_at(before, x);
    }
    assert(pooled(after) =~= pooled(before).remove(key));
}

/// Appending an entry for a new peer adds it.
proof fn lemma_appended<C>(before: Seq<Entry<C>>, after: Seq<Entry<C>>)
    requires
        one_per_peer(before),
        after.len() == before.len() + 1,
        after.drop_last() == before,
        !listed(before, after.last().key@),
    ensures
        one_per_peer(after),
        pooled(after) == pooled(before).insert(
            after.last().key@,
            (after.last().conn, instant_nanos(after.last().last_used)),
        ),
{
    let n = before.len() as int;
    let last = after[n];
    assert forall|a: int, b: int| 0 <= a < b < after.len() implies (#[trigger] after[a]).key@ != (
    #[trigger] after[b]).key@ by {
        assert(after[a] == before[a]);
        if b < n {
            assert(after[b] == before[b]);
        }
    }
    assert forall|k: Peer| #[trigger] pooled(after).contains_key(k) <==> pooled(before).insert(
        last.key@,
        (last.conn, instant_nanos(last.last_used)),
    ).contains_key(k) by {
        if listed(after, k) {
            let p = place(after, k);
            if p < n {
                assert(before[p] == after[p]);
                assert(before[p].key@ == k);
            }
        }
        if listed(before, k) {
            let p = place(before, k);
            assert(after[p] == before[p]);
            assert(after[p].key@ == k);
        }
        assert(after[n].key@ == last.key@);
    }
    assert forall|k: Peer| #[trigger] pooled(after).contains_key(k) implies pooled(after)[k]
        == pooled(before).insert(last.key@, (last.conn, instant_nanos(last.last_used)))[k] by {
        let p = place(after, k);
        lemma_pooled_at(after, p);
        if p < n {
            assert(before[p] == after[p]);
            lemma_pooled_at(before, p);
        }
    }
    assert(pooled(after) =~= pooled(before).insert(
        last.key@,
        (last.conn, instant_nanos(last.last_used)),
    ));
}

/// Keeping a new connection never takes a pool beyond its capacity, and leaves
/// every connection to another peer alone but for one that was used longest
/// ago, where the pool was full.
pub proof fn pool_is_bounded<C>(
    pool: Pooled<C>,
    key: Peer,
    conn: C,
    now: int,
    max_size: nat,
    after: Pooled<C>,
)
    requires
        pool.dom().finite(),
        1 <= max_size,
        pool.len() <= max_size,
        kept(pool, key, conn, now, max_size, after),
    ensures
        after.dom().finite(),
        after.len() <= max_size,
        after.contains_key(key),
        after[key] == (conn, now),
        forall|other: Peer| #[trigger]
            after.contains_key(other) && other != key ==> pool.contains_key(other) && after[other]
                == pool[other],
        forall|other: Peer| #[trigger]
            pool.contains_key(other) && !after.contains_key(other) ==> pool.len() == max_size
                && used_longest_ago(pool, other),
{
}

/// A pool starts empty, with room for 128 connections, or for as many as it is
/// told, but at least one.
pub proof fn a_pool_starts_empty<C>(
    fresh: ConnectionPool<C>,
    pool: ConnectionPool<C>,
    max_size: usize,
    sized: ConnectionPool<C>,
    asked: &ConnectionPool<C>,
    n: usize,
    empty: bool,
)
    requires
        call_ensures(ConnectionPool::<C>::new, (), fresh),
        call_ensures(ConnectionPool::<C>::with_max_size, (pool, max_size), sized),
        call_ensures(ConnectionPool::<C>::len, (asked,), n),
        call_ensures(ConnectionPool::<C>::is_empty, (asked,), empty),
    ensures
        fresh.wf(),
        fresh.capacity() == 128,
        forall|key: Peer| !fresh@.contains_key(key),
        sized@ == pool@,
        max_size > 0 ==> sized.capacity() == max_size,
        max_size == 0 ==> sized.capacity() == 1,
        n == asked@.len(),
        empty <==> asked@.len() == 0,
{
}

/// A connection is found for the peer that it leads to: the same address, port,
/// flow, scope and key, and no other.
pub proof fn a_connection_is_found_for_its_peer<C>(
    pool: &ConnectionPool<C>,
    key: &PoolKey,
    r: Option<&C>,
)
    requires
        call_ensures(ConnectionPool::<C>::cached, (pool, key), r),
    ensures
        ({
            let peer = (key.ip, key.port, key.flow, key.scope, key.peer_pk@);
            &&& r is Some <==> pool@.contains_key(peer)
            &&& r matches Some(conn) ==> *conn == pool@[peer].0
        }),
{
}

/// A connection that was sent on stays, as used now. One that failed is gone,
/// and no other is touched either way.
pub proof fn a_connection_lasts_while_it_works<C>(
    pool: &mut ConnectionPool<C>,
    key: &PoolKey,
    sent: bool,
    now: Instant,
)
    requires
        call_ensures(ConnectionPool::<C>::on_cached_send, (pool, key, sent, now), ()),
    ensures
        ({
            let was = old(pool)@;
            let left = final(pool)@;
            let peer = (key.ip, key.port, key.flow, key.scope, key.peer_pk@);
            &&& left.contains_key(peer) <==> was.contains_key(peer) && sent
            &&& was.contains_key(peer) && sent ==> left[peer] == (was[peer].0, instant_nanos(now))
            &&& forall|other: Peer|
                other != peer ==> (#[trigger] left.contains_key(other) <==> was.contains_key(other))
                    && (was.contains_key(other) ==> left[other] == was[other])
            &&& final(pool).capacity() == old(pool).capacity()
        }),
{
}

/// A fresh connection is kept, as used now. While there is room no other is
/// touched; in a full pool exactly one gives way, and it is one that was used
/// longest ago.
pub proof fn a_fresh_connection_is_kept<C>(
    pool: &mut ConnectionPool<C>,
    key: PoolKey,
    conn: C,
    now: Instant,
)
    requires
        call_ensures(ConnectionPool::<C>::on_opened, (pool, key, conn, now), ()),
    ensures
        ({
            let was = old(pool)@;
            let left = final(pool)@;
            let peer = (key.ip, key.port, key.flow, key.scope, key.peer_pk@);
            &&& left.contains_key(peer)
            &&& left[peer] == (conn, instant_nanos(now))
            &&& forall|other: Peer|
                other != peer && #[trigger] left.contains_key(other) ==> was.contains_key(other)
                    && left[other] == was[other]
            &&& was.len() < old(pool).capacity() ==> forall|other: Peer| #[trigger]
                was.contains_key(other) ==> left.contains_key(other)
            &&& forall|gone: Peer, other: Peer| #[trigger]
                was.contains_key(gone) && !left.contains_key(gone) && #[trigger] was.contains_key(
                    other,
                ) ==> was[gone].1 <= was[other].1
            &&& forall|gone: Peer, other: Peer| #[trigger]
                was.contains_key(gone) && !left.contains_key(gone) && #[trigger] was.contains_key(
                    other,
                ) && !left.contains_key(other) ==> gone == other
            &&& final(pool).capacity() == old(pool).capacity()
        }),
{
    let was = old(pool)@;
    let left = final(pool)@;
    let peer = key@;
    if was.len() >= old(pool).capacity() {
        let gone = choose|gone: Peer| #[trigger]
            used_longest_ago(was, gone) && left == was.remove(gone).insert(
                peer,
                (conn, instant_nanos(now)),
            );
        assert(used_longest_ago(was, gone));
    }
}

} // verus!
