//! The relay's bookkeeping: the roster of notaries with the time each was
//! last seen, the addresses each notary reported for itself, the pool of
//! every address ever learned from gossip, and which notary advertised which
//! address of the pool.

use vstd::prelude::*;
use crate::address::{
    lemma_packed_unpacked, pack_address, packed, packed_list, unpack_address, SENTINEL,
};
use crate::error::PacketError;
use crate::roster::{FIRST_PARTY, NOTARY_COUNT};
use crate::table::{
    has_key, key_of, lemma_row_found, row_at, rows_map, seen_of, sighted, unique_keys, Seen, SeenRow,
    SeenTable,
};

verus! {

/// One notary of the roster.
#[derive(Clone, Copy, Debug, PartialEq, Eq)]
pub struct NotaryIdentity {
    pub id: u8,
    pub name: &'static str,
    pub lastseen: u32,
}

/// The map `m`, keyed by notary and 64-bit item, read as a map keyed by
/// notary and packed address.
pub open spec fn by_address(m: Map<(u8, u64), Seen>) -> Map<(u8, u32), Seen> {
    Map::new(
        |k: (u8, u32)| m.contains_key((k.0, k.1 as u64)),
        |k: (u8, u32)| m[(k.0, k.1 as u64)],
    )
}

/// The map `m`, keyed by notary and 64-bit item, read as a map keyed by
/// notary and id of the pool.
pub open spec fn by_id(m: Map<(u8, u64), Seen>) -> Map<(u8, nat), Seen> {
    Map::new(
        |k: (u8, nat)| k.1 <= u64::MAX && m.contains_key((k.0, k.1 as u64)),
        |k: (u8, nat)| m[(k.0, k.1 as u64)],
    )
}

/// What the bookkeeping holds, as mathematical values.
pub struct DbView {
    /// The 64 slots of the roster; a slot is empty until the roster is seeded.
    pub notaries: Seq<Option<NotaryIdentity>>,
    /// For each notary and each address it reported as its own, when.
    pub ip_logs: Map<(u8, u32), Seen>,
    /// The pool of addresses learned from gossip, in the order in which they
    /// were learned. The address at position `i` has the id `i + 1`.
    pub known_ips: Seq<u32>,
    /// For each notary and each id of the pool that it advertised, when.
    pub notary_known_ips: Map<(u8, nat), Seen>,
}

impl DbView {
    /// What holds of every database: the roster has 64 slots, a filled slot
    /// holds the notary of its own index, the pool holds no address twice
    /// and never the sentinel, no notary is logged at the sentinel, and every
    /// association is with an id of the pool.
    pub open spec fn wf(self) -> bool {
        &&& self.notaries.len() == NOTARY_COUNT
        &&& forall|i: int|
            0 <= i < self.notaries.len() && (#[trigger] self.notaries[i]) is Some
                ==> self.notaries[i]->Some_0.id == i
        &&& self.known_ips.no_duplicates()
        &&& !self.known_ips.contains(SENTINEL)
        &&& forall|k: (u8, u32)| (#[trigger] self.ip_logs.contains_key(k)) ==> k.1 != SENTINEL
        &&& forall|k: (u8, nat)|
            (#[trigger] self.notary_known_ips.contains_key(k)) ==> 1 <= k.1 <= self.known_ips.len()
    }

    /// The roster after seeding with `names`: an empty slot gets the notary
    /// of its index with the name given and `lastseen` 0; a filled slot is
    /// left as it is.
    pub open spec fn seeded(self, names: [&'static str; 64]) -> DbView {
        DbView {
            notaries: Seq::new(
                NOTARY_COUNT as nat,
                |i: int|
                    match self.notaries[i] {
                        Some(n) => Some(n),
                        None => Some(NotaryIdentity { id: i as u8, name: names[i], lastseen: 0 }),
                    },
            ),
            ..self
        }
    }

    /// The roster after the notary `id` was seen at `timestamp`: its
    /// `lastseen` is set, where its slot is filled.
    pub open spec fn touched(self, id: u8, timestamp: u32) -> DbView
        recommends
            id < NOTARY_COUNT,
    {
        DbView {
            notaries: match self.notaries[id as int] {
                Some(n) => self.notaries.update(
                    id as int,
                    Some(NotaryIdentity { lastseen: timestamp, ..n }),
                ),
                None => self.notaries,
            },
            ..self
        }
    }

    /// The log after `notary` reported `address` as its own at `timestamp`.
    /// The sentinel is not logged.
    pub open spec fn own_ip_recorded(self, notary: u8, address: u32, timestamp: u32) -> DbView {
        if address == SENTINEL {
            self
        } else {
            DbView { ip_logs: sighted(self.ip_logs, (notary, address), timestamp), ..self }
        }
    }

    /// The database after `notary` advertised `address` at `timestamp`: the
    /// address joins the pool if it is new, and the association of the
    /// notary with its id is sighted. The sentinel changes nothing.
    pub open spec fn learned(self, notary: u8, address: u32, timestamp: u32) -> DbView {
        if address == SENTINEL {
            self
        } else {
            let pool = pool_with(self.known_ips, address);
            DbView {
                known_ips: pool,
                notary_known_ips: sighted(
                    self.notary_known_ips,
                    (notary, ip_id(pool, address)),
                    timestamp,
                ),
                ..self
            }
        }
    }

    /// The database after `notary` advertised the addresses of `list`, one
    /// after the other, at `timestamp`.
    pub open spec fn learned_all(self, notary: u8, list: Seq<u32>, timestamp: u32) -> DbView
        decreases list.len(),
    {
        if list.len() == 0 {
            self
        } else {
            self.learned(notary, list[0], timestamp).learned_all(
                notary,
                list.drop_first(),
                timestamp,
            )
        }
    }
}

/// The pool after `address` was learned: it is appended unless it is the
/// sentinel or already there.
pub open spec fn pool_with(pool: Seq<u32>, address: u32) -> Seq<u32> {
    if address == SENTINEL || pool.contains(address) {
        pool
    } else {
        pool.push(address)
    }
}

/// The id of `address` in the pool: its position, counted from 1.
pub open spec fn ip_id(pool: Seq<u32>, address: u32) -> nat
    recommends
        pool.contains(address),
{
    (pool.index_of(address) + 1) as nat
}

/// The addresses of `list` that are new to `pool`, each once, in the order
/// in which they first occur: what learning `list` adds to the pool.
pub open spec fn discovered(pool: Seq<u32>, list: Seq<u32>) -> Seq<u32>
    decreases list.len(),
{
    if list.len() == 0 {
        Seq::empty()
    } else {
        let rest = discovered(pool_with(pool, list[0]), list.drop_first());
        if list[0] != SENTINEL && !pool.contains(list[0]) {
            seq![list[0]] + rest
        } else {
            rest
        }
    }
}

/// In a pool without duplicates, an address is found at its own position.
pub proof fn lemma_index_of(pool: Seq<u32>, i: int)
    requires
        pool.no_duplicates(),
        0 <= i < pool.len(),
    ensures
        pool.contains(pool[i]),
        pool.index_of(pool[i]) == i,
{
    assert(pool.contains(pool[i]));
    let j = pool.index_of(pool[i]);
    assert(0 <= j < pool.len() && pool[j] == pool[i]);
}

/// Learning an address keeps a pool free of duplicates and of the sentinel,
/// keeps what it held at the positions it held it, and leaves the address
/// in it unless the address is the sentinel.
pub proof fn lemma_pool_with(pool: Seq<u32>, address: u32)
    requires
        pool.no_duplicates(),
        !pool.contains(SENTINEL),
    ensures
        pool_with(pool, address).no_duplicates(),
        !pool_with(pool, address).contains(SENTINEL),
        pool.len() <= pool_with(pool, address).len(),
        pool_with(pool, address).subrange(0, pool.len() as int) == pool,
        address != SENTINEL ==> pool_with(pool, address).contains(address),
        forall|a: u32| pool.contains(a) ==> #[trigger] pool_with(pool, address).contains(a),
{
    let p = pool_with(pool, address);
    if address != SENTINEL && !pool.contains(address) {
        assert forall|i: int, j: int| 0 <= i < p.len() && 0 <= j < p.len() && i != j implies p[i]
            != p[j] by {
            if i < pool.len() {
                assert(pool.contains(pool[i]));
            }
            if j < pool.len() {
                assert(pool.contains(pool[j]));
            }
        }
        if p.contains(SENTINEL) {
            let i = p.index_of(SENTINEL);
            assert(pool[i] == SENTINEL);
            assert(pool.contains(SENTINEL));
        }
        assert(p[pool.len() as int] == address);
        assert forall|a: u32| pool.contains(a) implies #[trigger] p.contains(a) by {
            let i = pool.index_of(a);
            assert(p[i] == a);
        }
    }
    assert(p.subrange(0, pool.len() as int) =~= pool);
}

/// Learning an address keeps a database well formed.
pub proof fn lemma_learned_wf(v: DbView, notary: u8, address: u32, timestamp: u32)
    requires
        v.wf(),
    ensures
        v.learned(notary, address, timestamp).wf(),
{
    let s = v.learned(notary, address, timestamp);
    lemma_pool_with(v.known_ips, address);
    if address != SENTINEL {
        let pool = pool_with(v.known_ips, address);
        let i = pool.index_of(address);
        assert(0 <= i < pool.len() && pool[i] == address);
        assert forall|k: (u8, nat)| (#[trigger] s.notary_known_ips.contains_key(k)) implies 1
            <= k.1 <= s.known_ips.len() by {
            if k != (notary, ip_id(pool, address)) {
                assert(v.notary_known_ips.contains_key(k));
            }
        }
        assert forall|k: (u8, u32)| (#[trigger] s.ip_logs.contains_key(k)) implies k.1
            != SENTINEL by {
            assert(v.ip_logs.contains_key(k));
        }
        assert forall|i: int|
            0 <= i < s.notaries.len() && (#[trigger] s.notaries[i]) is Some implies s.notaries[i]->Some_0.id
            == i by {
            assert(s.notaries[i] == v.notaries[i]);
        }
    }
}

/// Seeding keeps a database well formed.
pub proof fn lemma_seeded_wf(v: DbView, names: [&'static str; 64])
    requires
        v.wf(),
    ensures
        v.seeded(names).wf(),
{
    let s = v.seeded(names);
    assert forall|i: int|
        0 <= i < s.notaries.len() && (#[trigger] s.notaries[i]) is Some implies s.notaries[i]->Some_0.id
        == i by {
        if v.notaries[i] is Some {
            assert(s.notaries[i] == v.notaries[i]);
        }
    }
    assert forall|k: (u8, u32)| (#[trigger] s.ip_logs.contains_key(k)) implies k.1 != SENTINEL by {
        assert(v.ip_logs.contains_key(k));
    }
    assert forall|k: (u8, nat)| (#[trigger] s.notary_known_ips.contains_key(k)) implies 1 <= k.1
        <= s.known_ips.len() by {
        assert(v.notary_known_ips.contains_key(k));
    }
}

/// Marking a notary as seen keeps a database well formed.
pub proof fn lemma_touched_wf(v: DbView, id: u8, timestamp: u32)
    requires
        v.wf(),
        id < NOTARY_COUNT,
    ensures
        v.touched(id, timestamp).wf(),
{
    let s = v.touched(id, timestamp);
    assert forall|i: int|
        0 <= i < s.notaries.len() && (#[trigger] s.notaries[i]) is Some implies s.notaries[i]->Some_0.id
        == i by {
        if i != id {
            assert(s.notaries[i] == v.notaries[i]);
        } else {
            assert(v.notaries[i] is Some);
        }
    }
    assert forall|k: (u8, u32)| (#[trigger] s.ip_logs.contains_key(k)) implies k.1 != SENTINEL by {
        assert(v.ip_logs.contains_key(k));
    }
    assert forall|k: (u8, nat)| (#[trigger] s.notary_known_ips.contains_key(k)) implies 1 <= k.1
        <= s.known_ips.len() by {
        assert(v.notary_known_ips.contains_key(k));
    }
}

/// Logging an address of a notary keeps a database well formed.
pub proof fn lemma_own_ip_recorded_wf(v: DbView, notary: u8, address: u32, timestamp: u32)
    requires
        v.wf(),
    ensures
        v.own_ip_recorded(notary, address, timestamp).wf(),
{
    let s = v.own_ip_recorded(notary, address, timestamp);
    assert forall|k: (u8, u32)| (#[trigger] s.ip_logs.contains_key(k)) implies k.1 != SENTINEL by {
        if k != (notary, address) {
            assert(v.ip_logs.contains_key(k));
        }
    }
    assert forall|k: (u8, nat)| (#[trigger] s.notary_known_ips.contains_key(k)) implies 1 <= k.1
        <= s.known_ips.len() by {
        assert(v.notary_known_ips.contains_key(k));
    }
    assert forall|i: int|
        0 <= i < s.notaries.len() && (#[trigger] s.notaries[i]) is Some implies s.notaries[i]->Some_0.id
        == i by {
        assert(s.notaries[i] == v.notaries[i]);
    }
}

/// Learning a list of addresses keeps a database well formed. In
/// particular the sentinel never enters the pool.
pub proof fn lemma_learned_all_wf(v: DbView, notary: u8, list: Seq<u32>, timestamp: u32)
    requires
        v.wf(),
    ensures
        v.learned_all(notary, list, timestamp).wf(),
        !v.learned_all(notary, list, timestamp).known_ips.contains(SENTINEL),
    decreases list.len(),
{
    if list.len() > 0 {
        lemma_learned_wf(v, notary, list[0], timestamp);
        lemma_learned_all_wf(
            v.learned(notary, list[0], timestamp),
            notary,
            list.drop_first(),
            timestamp,
        );
    }
}

/// Learning a list of addresses touches nothing but the pool and the
/// associations, and the pool it leaves is the old pool followed by the
/// addresses discovered.
pub proof fn lemma_learned_all_pool(v: DbView, notary: u8, list: Seq<u32>, timestamp: u32)
    ensures
        v.learned_all(notary, list, timestamp).notaries == v.notaries,
        v.learned_all(notary, list, timestamp).ip_logs == v.ip_logs,
        v.learned_all(notary, list, timestamp).known_ips == v.known_ips + discovered(
            v.known_ips,
            list,
        ),
    decreases list.len(),
{
    if list.len() > 0 {
        let next = v.learned(notary, list[0], timestamp);
        lemma_learned_all_pool(next, notary, list.drop_first(), timestamp);
        let rest = discovered(next.known_ips, list.drop_first());
        assert(next.known_ips == pool_with(v.known_ips, list[0]));
        if list[0] != SENTINEL && !v.known_ips.contains(list[0]) {
            assert(v.known_ips.push(list[0]) + rest =~= v.known_ips + (seq![list[0]] + rest));
        }
    } else {
        assert(v.known_ips + Seq::<u32>::empty() =~= v.known_ips);
    }
}

/// What is discovered was not in the pool before, is not the sentinel, and
/// holds no address twice.
pub proof fn lemma_discovered_is_new(pool: Seq<u32>, list: Seq<u32>)
    requires
        pool.no_duplicates(),
        !pool.contains(SENTINEL),
    ensures
        (pool + discovered(pool, list)).no_duplicates(),
        !(pool + discovered(pool, list)).contains(SENTINEL),
        forall|i: int|
            0 <= i < discovered(pool, list).len() ==> {
                &&& !pool.contains(#[trigger] discovered(pool, list)[i])
                &&& list.contains(discovered(pool, list)[i])
                &&& discovered(pool, list)[i] != SENTINEL
            },
    decreases list.len(),
{
    let d = discovered(pool, list);
    if list.len() > 0 {
        let grown = pool_with(pool, list[0]);
        let tail = list.drop_first();
        let rest = discovered(grown, tail);
        lemma_pool_with(pool, list[0]);
        lemma_discovered_is_new(grown, tail);
        let fresh = list[0] != SENTINEL && !pool.contains(list[0]);
        if fresh {
            assert(grown + rest =~= pool + d);
        } else {
            assert(grown + rest =~= pool + d);
        }
        assert forall|i: int| 0 <= i < d.len() implies {
            &&& !pool.contains(#[trigger] d[i])
            &&& list.contains(d[i])
            &&& d[i] != SENTINEL
        } by {
            if fresh && i == 0 {
                assert(list[0] == d[0]);
            } else {
                let j = if fresh {
                    i - 1
                } else {
                    i
                };
                assert(d[i] == rest[j]);
                assert(!grown.contains(rest[j]));
                assert(tail.contains(rest[j]));
                let t = tail.index_of(rest[j]);
                assert(list[t + 1] == rest[j]);
                if pool.contains(d[i]) {
                    assert(grown.contains(d[i]));
                }
            }
        }
    } else {
        assert(pool + d =~= pool);
    }
}

/// Whether the database holds everything that learning `address` from
/// `notary` at `timestamp` records: the address is in the pool and its
/// association with the notary was last seen at `timestamp`.
pub open spec fn holds_learned(v: DbView, notary: u8, address: u32, timestamp: u32) -> bool {
    address == SENTINEL || {
        &&& v.known_ips.contains(address)
        &&& v.notary_known_ips.contains_key((notary, ip_id(v.known_ips, address)))
        &&& v.notary_known_ips[(notary, ip_id(v.known_ips, address))].last_seen == timestamp
    }
}

proof fn lemma_learned_holds(v: DbView, notary: u8, address: u32, timestamp: u32)
    requires
        v.wf(),
    ensures
        holds_learned(v.learned(notary, address, timestamp), notary, address, timestamp),
{
    lemma_pool_with(v.known_ips, address);
}

proof fn lemma_ip_id_stable(pool: Seq<u32>, address: u32, other: u32)
    requires
        pool.no_duplicates(),
        !pool.contains(SENTINEL),
        pool.contains(address),
    ensures
        ip_id(pool_with(pool, other), address) == ip_id(pool, address),
        1 <= ip_id(pool, address) <= pool.len(),
{
    lemma_pool_with(pool, other);
    let i = pool.index_of(address);
    let grown = pool_with(pool, other);
    assert(0 <= i < pool.len() && pool[i] == address);
    assert(grown.subrange(0, pool.len() as int)[i] == address);
    lemma_index_of(grown, i);
}

proof fn lemma_learned_keeps(v: DbView, notary: u8, address: u32, other: u32, timestamp: u32)
    requires
        v.wf(),
        holds_learned(v, notary, address, timestamp),
    ensures
        holds_learned(v.learned(notary, other, timestamp), notary, address, timestamp),
{
    if address != SENTINEL && other != SENTINEL {
        lemma_pool_with(v.known_ips, other);
        lemma_ip_id_stable(v.known_ips, address, other);
    }
}

proof fn lemma_learned_all_keeps(
    v: DbView,
    notary: u8,
    address: u32,
    list: Seq<u32>,
    timestamp: u32,
)
    requires
        v.wf(),
        holds_learned(v, notary, address, timestamp),
    ensures
        holds_learned(v.learned_all(notary, list, timestamp), notary, address, timestamp),
    decreases list.len(),
{
    if list.len() > 0 {
        lemma_learned_keeps(v, notary, address, list[0], timestamp);
        lemma_learned_wf(v, notary, list[0], timestamp);
        lemma_learned_all_keeps(
            v.learned(notary, list[0], timestamp),
            notary,
            address,
            list.drop_first(),
            timestamp,
        );
    }
}

/// After a list of addresses was learned, the database holds what learning
/// each of them records.
pub proof fn lemma_learned_all_holds(v: DbView, notary: u8, list: Seq<u32>, timestamp: u32)
    requires
        v.wf(),
    ensures
        forall|i: int|
            0 <= i < list.len() ==> holds_learned(
                v.learned_all(notary, list, timestamp),
                notary,
                #[trigger] list[i],
                timestamp,
            ),
    decreases list.len(),
{
    if list.len() > 0 {
        let next = v.learned(notary, list[0], timestamp);
        let tail = list.drop_first();
        lemma_learned_wf(v, notary, list[0], timestamp);
        lemma_learned_holds(v, notary, list[0], timestamp);
        lemma_learned_all_keeps(next, notary, list[0], tail, timestamp);
        lemma_learned_all_holds(next, notary, tail, timestamp);
        assert forall|i: int| 0 <= i < list.len() implies holds_learned(
            v.learned_all(notary, list, timestamp),
            notary,
            #[trigger] list[i],
            timestamp,
        ) by {
            if i > 0 {
                assert(list[i] == tail[i - 1]);
            }
        }
    }
}

/// Learning addresses that the database already holds, at the time it holds
/// them for, changes nothing and discovers nothing.
pub proof fn lemma_learned_all_fixed(v: DbView, notary: u8, list: Seq<u32>, timestamp: u32)
    requires
        forall|i: int| 0 <= i < list.len() ==> holds_learned(v, notary, #[trigger] list[i], timestamp),
    ensures
        v.learned_all(notary, list, timestamp) == v,
        discovered(v.known_ips, list) == Seq::<u32>::empty(),
    decreases list.len(),
{
    if list.len() > 0 {
        let tail = list.drop_first();
        assert(holds_learned(v, notary, list[0], timestamp));
        let next = v.learned(notary, list[0], timestamp);
        assert(next.notary_known_ips =~= v.notary_known_ips);
        assert(next == v);
        assert forall|i: int| 0 <= i < tail.len() implies holds_learned(
            v,
            notary,
            #[trigger] tail[i],
            timestamp,
        ) by {
            assert(tail[i] == list[i + 1]);
        }
        lemma_learned_all_fixed(v, notary, tail, timestamp);
    }
}

/// Learning is idempotent: once a list of addresses was learned from a
/// notary at some time, learning the same list from the same notary at the
/// same time changes nothing, so every `first_seen` stays as it is, and
/// discovers nothing.
pub proof fn lemma_learned_all_idempotent(v: DbView, notary: u8, list: Seq<u32>, timestamp: u32)
    requires
        v.wf(),
    ensures
        v.learned_all(notary, list, timestamp).learned_all(notary, list, timestamp)
            == v.learned_all(notary, list, timestamp),
        discovered(v.learned_all(notary, list, timestamp).known_ips, list) == Seq::<u32>::empty(),
{
    lemma_learned_all_holds(v, notary, list, timestamp);
    lemma_learned_all_fixed(v.learned_all(notary, list, timestamp), notary, list, timestamp);
}

/// What was first seen stays first seen at the same time: learning a list of
/// addresses, from any notary at any time, keeps every association it finds,
/// under the same id, with its `first_seen`.
pub proof fn lemma_learned_all_keeps_first_seen(
    v: DbView,
    notary: u8,
    list: Seq<u32>,
    timestamp: u32,
    k: (u8, nat),
)
    requires
        v.wf(),
        v.notary_known_ips.contains_key(k),
    ensures
        v.learned_all(notary, list, timestamp).notary_known_ips.contains_key(k),
        v.learned_all(notary, list, timestamp).notary_known_ips[k].first_seen
            == v.notary_known_ips[k].first_seen,
    decreases list.len(),
{
    if list.len() > 0 {
        lemma_learned_wf(v, notary, list[0], timestamp);
        lemma_learned_all_keeps_first_seen(
            v.learned(notary, list[0], timestamp),
            notary,
            list.drop_first(),
            timestamp,
            k,
        );
    }
}

/// Logging an own address twice keeps the time of the first and takes the
/// time of the second.
pub proof fn lemma_own_ip_recorded_twice(v: DbView, notary: u8, address: u32, t1: u32, t2: u32)
    requires
        address != SENTINEL,
        !v.ip_logs.contains_key((notary, address)),
    ensures
        v.own_ip_recorded(notary, address, t1).own_ip_recorded(notary, address, t2).ip_logs[(
            notary,
            address,
        )] == (Seen { first_seen: t1, last_seen: t2 }),
{
}

/// Seeding is idempotent and never overwrites a filled slot.
pub proof fn lemma_seeded_idempotent(v: DbView, names: [&'static str; 64])
    requires
        v.wf(),
    ensures
        v.seeded(names).seeded(names) == v.seeded(names),
        forall|i: int|
            0 <= i < NOTARY_COUNT ==> (#[trigger] v.seeded(names).notaries[i]) is Some,
        forall|i: int|
            0 <= i < NOTARY_COUNT && v.notaries[i] is Some ==> (#[trigger] v.seeded(
                names,
            ).notaries[i]) == v.notaries[i],
{
    assert(v.seeded(names).seeded(names).notaries =~= v.seeded(names).notaries);
}

/// The relay's bookkeeping.
#[derive(Clone, Debug, PartialEq, Eq)]
pub struct Database {
    notaries: Vec<Option<NotaryIdentity>>,
    ip_logs: SeenTable,
    known_ips: Vec<u32>,
    notary_known_ips: SeenTable,
}

impl View for Database {
    type V = DbView;

    closed spec fn view(&self) -> DbView {
        DbView {
            notaries: self.notaries@,
            ip_logs: by_address(self.ip_logs@),
            known_ips: self.known_ips@,
            notary_known_ips: by_id(self.notary_known_ips@),
        }
    }
}

impl Database {
    /// The invariant of the representation. It implies `self@.wf()`.
    pub closed spec fn wf(&self) -> bool {
        &&& self@.wf()
        &&& self.ip_logs.wf()
        &&& self.notary_known_ips.wf()
        &&& forall|k: (u8, u64)| (#[trigger] self.ip_logs@.contains_key(k)) ==> k.1 <= u32::MAX
    }

    /// A database that satisfies the invariant has a well-formed view.
    pub proof fn lemma_wf(&self)
        requires
            self.wf(),
        ensures
            self@.wf(),
    {
    }

    /// The invariant, from its parts.
    proof fn lemma_wf_from_parts(&self)
        requires
            self@.wf(),
            self.ip_logs.wf(),
            self.notary_known_ips.wf(),
            forall|k: (u8, u64)| (#[trigger] self.ip_logs@.contains_key(k)) ==> k.1 <= u32::MAX,
        ensures
            self.wf(),
    {
    }

    /// A database with an unseeded roster and nothing recorded.
    pub fn new() -> (db: Database)
        ensures
            db.wf(),
            db@.notaries == Seq::new(NOTARY_COUNT as nat, |i: int| None::<NotaryIdentity>),
            db@.ip_logs == Map::<(u8, u32), Seen>::empty(),
            db@.known_ips == Seq::<u32>::empty(),
            db@.notary_known_ips == Map::<(u8, nat), Seen>::empty(),
    {
        let mut notaries: Vec<Option<NotaryIdentity>> = Vec::new();
        let mut i: usize = 0;
        while i < NOTARY_COUNT
            invariant
                i <= NOTARY_COUNT,
                notaries@.len() == i,
                forall|j: int| 0 <= j < i ==> notaries@[j] is None,
            decreases NOTARY_COUNT - i,
        {
            notaries.push(None);
            i += 1;
        }
        let db = Database {
            notaries,
            ip_logs: SeenTable::new(),
            known_ips: Vec::new(),
            notary_known_ips: SeenTable::new(),
        };
        assert(db@.notaries =~= Seq::new(NOTARY_COUNT as nat, |i: int| None::<NotaryIdentity>));
        assert(db@.ip_logs =~= Map::<(u8, u32), Seen>::empty());
        assert(db@.notary_known_ips =~= Map::<(u8, nat), Seen>::empty());
        db
    }
}

/// Seeds the roster with `identities`: every id from 0 to 63 that has no
/// row gets one, with the name given and `lastseen` 0. A row that exists is
/// never overwritten, so seeding twice is seeding once.
pub fn init_notaries_table(db: &mut Database, identities: [&'static str; 64])
    requires
        old(db).wf(),
    ensures
        final(db).wf(),
        final(db)@ == old(db)@.seeded(identities),
{
    let mut i: usize = 0;
    while i < NOTARY_COUNT
        invariant
            i <= NOTARY_COUNT,
            db.ip_logs == old(db).ip_logs,
            db.known_ips == old(db).known_ips,
            db.notary_known_ips == old(db).notary_known_ips,
            db.notaries@.len() == NOTARY_COUNT,
            old(db).notaries@.len() == NOTARY_COUNT,
            forall|j: int| 0 <= j < i ==> db.notaries@[j] == old(db)@.seeded(identities).notaries[j],
            forall|j: int| i <= j < NOTARY_COUNT ==> db.notaries@[j] == old(db).notaries@[j],
        decreases NOTARY_COUNT - i,
    {
        if db.notaries[i].is_none() {
            db.notaries[i] = Some(NotaryIdentity { id: i as u8, name: identities[i], lastseen: 0 });
        }
        i += 1;
    }
    proof {
        assert(db@.notaries =~= old(db)@.seeded(identities).notaries);
        assert(db@ == old(db)@.seeded(identities));
        lemma_seeded_wf(old(db)@, identities);
        db.lemma_wf_from_parts();
    }
}

/// Prepares the bookkeeping for use: seeds the roster with the compiled
/// names. What is already recorded stays.
pub fn init_db(db: &mut Database)
    requires
        old(db).wf(),
    ensures
        final(db).wf(),
        final(db)@ == old(db)@.seeded(FIRST_PARTY),
{
    init_notaries_table(db, FIRST_PARTY);
}

/// Marks the notary `notary_id` as seen at `now`. Fails with
/// `InvalidSender`, and changes nothing, exactly when the id is outside the
/// roster.
pub fn update_lastseen(db: &mut Database, notary_id: u8, now: u32) -> (r: Result<(), PacketError>)
    requires
        old(db).wf(),
    ensures
        final(db).wf(),
        r is Ok <==> notary_id < NOTARY_COUNT,
        r is Ok ==> final(db)@ == old(db)@.touched(notary_id, now),
        r is Err ==> r == Err::<(), PacketError>(PacketError::InvalidSender) && final(db)@ == old(
            db,
        )@,
{
    if (notary_id as usize) >= NOTARY_COUNT {
        return Err(PacketError::InvalidSender);
    }
    match db.notaries[notary_id as usize] {
        Some(n) => {
            db.notaries[notary_id as usize] = Some(
                NotaryIdentity { id: n.id, name: n.name, lastseen: now },
            );
        },
        None => {},
    }
    proof {
        assert(db@.notaries =~= old(db)@.touched(notary_id, now).notaries);
        assert(db@ == old(db)@.touched(notary_id, now));
        lemma_touched_wf(old(db)@, notary_id, now);
        db.lemma_wf_from_parts();
    }
    Ok(())
}

/// Records that the notary `notary_id` reported `ipbits` as its own address
/// at `now`: a pair that is already logged gets its `last_seen` set; a new
/// pair is logged with both times set to `now`. The all-zero address is not
/// logged.
pub fn update_ip_logs(db: &mut Database, notary_id: u8, ipbits: [u8; 4], now: u32)
    requires
        old(db).wf(),
    ensures
        final(db).wf(),
        final(db)@ == old(db)@.own_ip_recorded(notary_id, packed(ipbits@), now),
{
    let address: u32 = pack_address(&ipbits);
    if address == SENTINEL {
        return ;
    }
    let ghost before = db.ip_logs@;
    db.ip_logs.upsert(notary_id, address as u64, now);
    proof {
        let after = db.ip_logs@;
        assert(by_address(after) =~= sighted(by_address(before), (notary_id, address), now));
        assert(db@ == old(db)@.own_ip_recorded(notary_id, address, now));
        lemma_own_ip_recorded_wf(old(db)@, notary_id, address, now);
        assert forall|q: (u8, u64)| #[trigger] after.contains_key(q) implies q.1 <= u32::MAX by {
            if q != (notary_id, address as u64) {
                assert(before.contains_key(q));
            }
        }
        db.lemma_wf_from_parts();
    }
}

impl Database {
    fn pool_position(&self, address: u32) -> (at: Option<usize>)
        ensures
            at is Some <==> self.known_ips@.contains(address),
            at is Some ==> at->Some_0 < self.known_ips@.len() && self.known_ips@[at->Some_0 as int]
                == address,
    {
        let mut i: usize = 0;
        while i < self.known_ips.len()
            invariant
                i <= self.known_ips@.len(),
                forall|j: int| 0 <= j < i ==> self.known_ips@[j] != address,
            decreases self.known_ips@.len() - i,
        {
            if self.known_ips[i] == address {
                return Some(i);
            }
            i += 1;
        }
        None
    }

    /// Records that `notary_id` advertised `address` at `now`. Returns
    /// whether the address was new to the pool.
    pub fn learn(&mut self, notary_id: u8, address: u32, now: u32) -> (fresh: bool)
        requires
            old(self).wf(),
        ensures
            final(self).wf(),
            final(self)@ == old(self)@.learned(notary_id, address, now),
            fresh == (address != SENTINEL && !old(self)@.known_ips.contains(address)),
    {
        if address == SENTINEL {
            return false;
        }
        let ghost pool = pool_with(self.known_ips@, address);
        let found = self.pool_position(address);
        let (index, fresh): (usize, bool) = match found {
            Some(i) => (i, false),
            None => {
                let at: usize = self.known_ips.len();
                self.known_ips.push(address);
                (at, true)
            },
        };
        let total: usize = self.known_ips.len();
        proof {
            lemma_pool_with(old(self)@.known_ips, address);
            assert(self.known_ips@ =~= pool);
            lemma_index_of(pool, index as int);
        }
        let id: u64 = index as u64 + 1;
        let ghost before = self.notary_known_ips@;
        self.notary_known_ips.upsert(notary_id, id, now);
        proof {
            assert(by_id(self.notary_known_ips@) =~= sighted(
                by_id(before),
                (notary_id, id as nat),
                now,
            ));
            assert(self@ == old(self)@.learned(notary_id, address, now));
            lemma_learned_wf(old(self)@, notary_id, address, now);
            self.lemma_wf_from_parts();
        }
        fresh
    }
}

/// Records that the notary `notary_id` advertised the addresses `ips` at
/// `now`. Each address other than the all-zero one joins the pool if it is
/// not in it yet, and the association of the notary with it gets its
/// `last_seen` set, or is created with both times set to `now`. Returns
/// exactly the addresses that this call added to the pool, each once, in the
/// order in which they first occur in `ips`.
pub fn update_known_ips(db: &mut Database, notary_id: u8, ips: Vec<[u8; 4]>, now: u32) -> (new_ips:
    Vec<[u8; 4]>)
    requires
        old(db).wf(),
    ensures
        final(db).wf(),
        final(db)@ == old(db)@.learned_all(notary_id, packed_list(ips@), now),
        packed_list(new_ips@) == discovered(old(db)@.known_ips, packed_list(ips@)),
{
    let mut new_ips: Vec<[u8; 4]> = Vec::new();
    let ghost list = packed_list(ips@);
    let mut i: usize = 0;
    assert(list.skip(0) =~= list);
    assert(packed_list(new_ips@) =~= Seq::<u32>::empty());
    while i < ips.len()
        invariant
            i <= ips@.len(),
            list == packed_list(ips@),
            db.wf(),
            db@.learned_all(notary_id, list.skip(i as int), now) == old(db)@.learned_all(
                notary_id,
                list,
                now,
            ),
            packed_list(new_ips@) + discovered(db@.known_ips, list.skip(i as int)) == discovered(
                old(db)@.known_ips,
                list,
            ),
        decreases ips@.len() - i,
    {
        let ghost before = db@;
        let ghost found = packed_list(new_ips@);
        let address: u32 = pack_address(&ips[i]);
        let fresh = db.learn(notary_id, address, now);
        if fresh {
            new_ips.push(ips[i]);
        }
        proof {
            let rest = list.skip(i as int);
            assert(rest.len() > 0);
            assert(rest[0] == address);
            assert(rest.drop_first() =~= list.skip(i + 1));
            assert(db@.known_ips == pool_with(before.known_ips, address));
            if fresh {
                assert(packed_list(new_ips@) =~= found + seq![address]);
                assert(found + (seq![address] + discovered(db@.known_ips, list.skip(i + 1)))
                    =~= (found + seq![address]) + discovered(db@.known_ips, list.skip(i + 1)));
            } else {
                assert(packed_list(new_ips@) =~= found);
            }
        }
        i += 1;
    }
    assert(list.skip(i as int) =~= Seq::<u32>::empty());
    assert(packed_list(new_ips@) + Seq::<u32>::empty() =~= packed_list(new_ips@));
    new_ips
}

impl Database {
    /// The addresses of the pool, in the order in which they were learned.
    pub fn known_ips(&self) -> (pool: Vec<[u8; 4]>)
        ensures
            packed_list(pool@) == self@.known_ips,
    {
        let mut pool: Vec<[u8; 4]> = Vec::new();
        let mut i: usize = 0;
        while i < self.known_ips.len()
            invariant
                i <= self.known_ips@.len(),
                pool@.len() == i,
                forall|j: int| 0 <= j < i ==> packed((#[trigger] pool@[j])@) == self.known_ips@[j],
            decreases self.known_ips@.len() - i,
        {
            let ip = unpack_address(self.known_ips[i]);
            proof {
                lemma_packed_unpacked(self.known_ips@[i as int]);
            }
            pool.push(ip);
            i += 1;
        }
        assert(packed_list(pool@) =~= self@.known_ips);
        pool
    }
}

/// One row of the log of own addresses: the notary `notary_id` reported
/// `address` as its own, first at `first_seen` and last at `last_seen`.
#[derive(Clone, Copy, Debug, PartialEq, Eq)]
pub struct IpLogEntry {
    pub notary_id: u8,
    pub address: [u8; 4],
    pub first_seen: u32,
    pub last_seen: u32,
}

/// One association: the notary `notary_id` advertised the address with the
/// id `ip_id` of the pool, first at `first_seen` and last at `last_seen`.
#[derive(Clone, Copy, Debug, PartialEq, Eq, Structural)]
pub struct NotaryKnownIpAssoc {
    pub notary_id: u8,
    pub ip_id: u64,
    pub first_seen: u32,
    pub last_seen: u32,
}

impl IpLogEntry {
    /// The key of the row.
    pub open spec fn key(self) -> (u8, u32) {
        (self.notary_id, packed(self.address@))
    }

    /// The times of the row.
    pub open spec fn seen(self) -> Seen {
        Seen { first_seen: self.first_seen, last_seen: self.last_seen }
    }
}

impl NotaryKnownIpAssoc {
    /// The key of the row.
    pub open spec fn key(self) -> (u8, nat) {
        (self.notary_id, self.ip_id as nat)
    }

    /// The times of the row.
    pub open spec fn seen(self) -> Seen {
        Seen { first_seen: self.first_seen, last_seen: self.last_seen }
    }
}

impl Database {
    /// The notary with the id `id`, if the id is in the roster and its slot
    /// has been seeded.
    pub fn notary(&self, id: u8) -> (found: Option<NotaryIdentity>)
        requires
            self.wf(),
        ensures
            found == if id < NOTARY_COUNT {
                self@.notaries[id as int]
            } else {
                None
            },
    {
        if (id as usize) < NOTARY_COUNT {
            self.notaries[id as usize]
        } else {
            None
        }
    }

    /// The id that the pool gives to `ipbits`, if the address is in the pool.
    pub fn known_ip_id(&self, ipbits: [u8; 4]) -> (found: Option<u64>)
        requires
            self.wf(),
        ensures
            found is Some <==> self@.known_ips.contains(packed(ipbits@)),
            found is Some ==> found->Some_0 == ip_id(self@.known_ips, packed(ipbits@)),
    {
        let address: u32 = pack_address(&ipbits);
        match self.pool_position(address) {
            Some(i) => {
                let total: usize = self.known_ips.len();
                proof {
                    lemma_index_of(self.known_ips@, i as int);
                }
                Some(i as u64 + 1)
            },
            None => None,
        }
    }

    /// The row that logs `ipbits` as an own address of `notary_id`, if there
    /// is one.
    pub fn ip_log(&self, notary_id: u8, ipbits: [u8; 4]) -> (found: Option<IpLogEntry>)
        requires
            self.wf(),
        ensures
            found is Some <==> self@.ip_logs.contains_key((notary_id, packed(ipbits@))),
            found is Some ==> {
                &&& found->Some_0.notary_id == notary_id
                &&& found->Some_0.address == ipbits
                &&& found->Some_0.seen() == self@.ip_logs[(notary_id, packed(ipbits@))]
            },
    {
        let address: u32 = pack_address(&ipbits);
        match self.ip_logs.get(notary_id, address as u64) {
            Some(seen) => Some(
                IpLogEntry {
                    notary_id,
                    address: ipbits,
                    first_seen: seen.first_seen,
                    last_seen: seen.last_seen,
                },
            ),
            None => None,
        }
    }

    /// The association of `notary_id` with the address `ipbits` of the pool,
    /// if the address is in the pool and the notary advertised it.
    pub fn association(&self, notary_id: u8, ipbits: [u8; 4]) -> (found: Option<
        NotaryKnownIpAssoc,
    >)
        requires
            self.wf(),
        ensures
            found is Some <==> {
                &&& self@.known_ips.contains(packed(ipbits@))
                &&& self@.notary_known_ips.contains_key(
                    (notary_id, ip_id(self@.known_ips, packed(ipbits@))),
                )
            },
            found is Some ==> {
                &&& found->Some_0.key() == (notary_id, ip_id(self@.known_ips, packed(ipbits@)))
                &&& found->Some_0.seen() == self@.notary_known_ips[found->Some_0.key()]
            },
    {
        let id: u64 = match self.known_ip_id(ipbits) {
            Some(id) => id,
            None => {
                return None;
            },
        };
        match self.notary_known_ips.get(notary_id, id) {
            Some(seen) => Some(
                NotaryKnownIpAssoc {
                    notary_id,
                    ip_id: id,
                    first_seen: seen.first_seen,
                    last_seen: seen.last_seen,
                },
            ),
            None => None,
        }
    }

    /// Every row of the log of own addresses, each key once.
    pub fn ip_logs(&self) -> (rows: Vec<IpLogEntry>)
        requires
            self.wf(),
        ensures
            forall|i: int|
                0 <= i < rows@.len() ==> {
                    &&& self@.ip_logs.contains_key((#[trigger] rows@[i]).key())
                    &&& self@.ip_logs[rows@[i].key()] == rows@[i].seen()
                },
            forall|i: int, j: int|
                0 <= i < j < rows@.len() ==> (#[trigger] rows@[i]).key() != (#[trigger] rows@[j]).key(),
            forall|k: (u8, u32)|
                self@.ip_logs.contains_key(k) ==> exists|i: int|
                    0 <= i < rows@.len() && (#[trigger] rows@[i]).key() == k,
    {
        let mut rows: Vec<IpLogEntry> = Vec::new();
        let total: usize = self.ip_logs.len();
        let ghost table = self.ip_logs.rows();
        proof {
            self.ip_logs.lemma_view();
        }
        let mut i: usize = 0;
        while i < total
            invariant
                i <= total,
                total == table.len(),
                table == self.ip_logs.rows(),
                self.wf(),
                unique_keys(table),
                self.ip_logs@ == rows_map(table),
                rows@.len() == i,
                forall|j: int|
                    0 <= j < i ==> {
                        &&& (#[trigger] rows@[j]).notary_id == table[j].notary_id
                        &&& packed(rows@[j].address@) as u64 == table[j].item
                        &&& rows@[j].seen() == seen_of(table[j])
                    },
            decreases total - i,
        {
            let row = self.ip_logs.row(i);
            proof {
                lemma_row_found(table, i as int);
                assert(self.ip_logs@.contains_key(key_of(row)));
                assert(row.item <= u32::MAX);
                lemma_packed_unpacked(row.item as u32);
            }
            let address = unpack_address(row.item as u32);
            rows.push(
                IpLogEntry {
                    notary_id: row.notary_id,
                    address,
                    first_seen: row.first_seen,
                    last_seen: row.last_seen,
                },
            );
            i += 1;
        }
        proof {
            assert forall|j: int| 0 <= j < rows@.len() implies {
                &&& self@.ip_logs.contains_key((#[trigger] rows@[j]).key())
                &&& self@.ip_logs[rows@[j].key()] == rows@[j].seen()
            } by {
                lemma_row_found(table, j);
                assert(key_of(table[j]) == (rows@[j].key().0, rows@[j].key().1 as u64));
            }
            assert forall|a: int, b: int| 0 <= a < b < rows@.len() implies (#[trigger] rows@[a]).key()
                != (#[trigger] rows@[b]).key() by {
                assert(key_of(table[a]) != key_of(table[b]));
            }
            assert forall|k: (u8, u32)| self@.ip_logs.contains_key(k) implies exists|j: int|
                0 <= j < rows@.len() && (#[trigger] rows@[j]).key() == k by {
                let wide = (k.0, k.1 as u64);
                assert(has_key(table, wide));
                let j = row_at(table, wide);
                assert(key_of(table[j]) == wide);
                assert(rows@[j].key() == k);
            }
        }
        rows
    }

    /// Every association of a notary with an address of the pool, each key
    /// once.
    pub fn notary_known_ips(&self) -> (rows: Vec<NotaryKnownIpAssoc>)
        requires
            self.wf(),
        ensures
            forall|i: int|
                0 <= i < rows@.len() ==> {
                    &&& self@.notary_known_ips.contains_key((#[trigger] rows@[i]).key())
                    &&& self@.notary_known_ips[rows@[i].key()] == rows@[i].seen()
                },
            forall|i: int, j: int|
                0 <= i < j < rows@.len() ==> (#[trigger] rows@[i]).key() != (#[trigger] rows@[j]).key(),
            forall|k: (u8, nat)|
                self@.notary_known_ips.contains_key(k) ==> exists|i: int|
                    0 <= i < rows@.len() && (#[trigger] rows@[i]).key() == k,
    {
        let mut rows: Vec<NotaryKnownIpAssoc> = Vec::new();
        let total: usize = self.notary_known_ips.len();
        let ghost table = self.notary_known_ips.rows();
        proof {
            self.notary_known_ips.lemma_view();
        }
        let mut i: usize = 0;
        while i < total
            invariant
                i <= total,
                total == table.len(),
                table == self.notary_known_ips.rows(),
                rows@.len() == i,
                forall|j: int|
                    0 <= j < i ==> {
                        &&& (#[trigger] rows@[j]).notary_id == table[j].notary_id
                        &&& rows@[j].ip_id == table[j].item
                        &&& rows@[j].seen() == seen_of(table[j])
                    },
            decreases total - i,
        {
            let row = self.notary_known_ips.row(i);
            rows.push(
                NotaryKnownIpAssoc {
                    notary_id: row.notary_id,
                    ip_id: row.item,
                    first_seen: row.first_seen,
                    last_seen: row.last_seen,
                },
            );
            i += 1;
        }
        proof {
            assert forall|j: int| 0 <= j < rows@.len() implies {
                &&& self@.notary_known_ips.contains_key((#[trigger] rows@[j]).key())
                &&& self@.notary_known_ips[rows@[j].key()] == rows@[j].seen()
            } by {
                lemma_row_found(table, j);
                assert(key_of(table[j]) == (rows@[j].key().0, rows@[j].key().1 as u64));
            }
            assert forall|a: int, b: int| 0 <= a < b < rows@.len() implies (#[trigger] rows@[a]).key()
                != (#[trigger] rows@[b]).key() by {
                assert(key_of(table[a]) != key_of(table[b]));
            }
            assert forall|k: (u8, nat)| self@.notary_known_ips.contains_key(k) implies exists|
                j: int,
            |
                0 <= j < rows@.len() && (#[trigger] rows@[j]).key() == k by {
                let wide = (k.0, k.1 as u64);
                assert(has_key(table, wide));
                let j = row_at(table, wide);
                assert(key_of(table[j]) == wide);
                assert(rows@[j].key() == k);
            }
        }
        rows
    }
}

} // verus!
