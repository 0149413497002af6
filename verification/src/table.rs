//! A table of sightings: for each pair of a notary and an item, when the
//! pair was first seen and when it was last seen.

use vstd::prelude::*;

verus! {

/// When something was first seen and when it was last seen, in unix seconds.
#[derive(Clone, Copy, Debug, PartialEq, Eq, Structural)]
pub struct Seen {
    pub first_seen: u32,
    pub last_seen: u32,
}

/// One row of a table of sightings.
#[derive(Clone, Copy, Debug, PartialEq, Eq, Structural)]
pub struct SeenRow {
    pub notary_id: u8,
    pub item: u64,
    pub first_seen: u32,
    pub last_seen: u32,
}

/// The key of a row: the notary and the item.
pub open spec fn key_of(row: SeenRow) -> (u8, u64) {
    (row.notary_id, row.item)
}

/// The times that a row records.
pub open spec fn seen_of(row: SeenRow) -> Seen {
    Seen { first_seen: row.first_seen, last_seen: row.last_seen }
}

/// Whether some row of `rows` has the key `k`.
pub open spec fn has_key(rows: Seq<SeenRow>, k: (u8, u64)) -> bool {
    exists|i: int| 0 <= i < rows.len() && #[trigger] key_of(rows[i]) == k
}

/// The position of a row of `rows` with the key `k`.
pub open spec fn row_at(rows: Seq<SeenRow>, k: (u8, u64)) -> int {
    choose|i: int| 0 <= i < rows.len() && #[trigger] key_of(rows[i]) == k
}

/// No two rows have the same key.
pub open spec fn unique_keys(rows: Seq<SeenRow>) -> bool {
    forall|i: int, j: int|
        0 <= i < j < rows.len() ==> #[trigger] key_of(rows[i]) != #[trigger] key_of(rows[j])
}

/// The rows as a map from key to times.
pub open spec fn rows_map(rows: Seq<SeenRow>) -> Map<(u8, u64), Seen> {
    Map::new(|k: (u8, u64)| has_key(rows, k), |k: (u8, u64)| seen_of(rows[row_at(rows, k)]))
}

/// What a sighting at `timestamp` makes of the map `m` at the key `k`: an
/// entry that is already there keeps the time it was first seen, a new one
/// starts at `timestamp`; either way it was last seen at `timestamp`.
pub open spec fn sighted<K>(m: Map<K, Seen>, k: K, timestamp: u32) -> Map<K, Seen> {
    m.insert(
        k,
        Seen {
            first_seen: if m.contains_key(k) {
                m[k].first_seen
            } else {
                timestamp
            },
            last_seen: timestamp,
        },
    )
}

/// In a table with unique keys, the row at position `i` is the one its key
/// leads to.
pub proof fn lemma_row_found(rows: Seq<SeenRow>, i: int)
    requires
        unique_keys(rows),
        0 <= i < rows.len(),
    ensures
        has_key(rows, key_of(rows[i])),
        row_at(rows, key_of(rows[i])) == i,
        rows_map(rows).contains_key(key_of(rows[i])),
        rows_map(rows)[key_of(rows[i])] == seen_of(rows[i]),
{
    let k = key_of(rows[i]);
    assert(has_key(rows, k));
    let j = row_at(rows, k);
    assert(0 <= j < rows.len() && key_of(rows[j]) == k);
    if j < i {
        assert(key_of(rows[j]) != key_of(rows[i]));
    }
    if i < j {
        assert(key_of(rows[i]) != key_of(rows[j]));
    }
}

/// A table of sightings with at most one row for each key.
#[derive(Clone, Debug, PartialEq, Eq)]
pub struct SeenTable {
    rows: Vec<SeenRow>,
}

impl View for SeenTable {
    type V = Map<(u8, u64), Seen>;

    closed spec fn view(&self) -> Map<(u8, u64), Seen> {
        rows_map(self.rows@)
    }
}

impl SeenTable {
    /// The rows, in the order in which their keys were first sighted.
    pub closed spec fn rows(&self) -> Seq<SeenRow> {
        self.rows@
    }

    /// The table's invariant: no key has two rows.
    pub closed spec fn wf(&self) -> bool {
        unique_keys(self.rows@)
    }

    /// The view is the map of the rows.
    pub proof fn lemma_view(&self)
        ensures
            self@ == rows_map(self.rows()),
            self.wf() == unique_keys(self.rows()),
    {
    }

    /// An empty table.
    pub fn new() -> (table: SeenTable)
        ensures
            table.wf(),
            table@ == Map::<(u8, u64), Seen>::empty(),
            table.rows() == Seq::<SeenRow>::empty(),
    {
        let table = SeenTable { rows: Vec::new() };
        assert(table@ =~= Map::<(u8, u64), Seen>::empty());
        table
    }

    /// The number of rows.
    pub fn len(&self) -> (n: usize)
        ensures
            n == self.rows().len(),
    {
        self.rows.len()
    }

    /// The row at position `i`.
    pub fn row(&self, i: usize) -> (row: SeenRow)
        requires
            i < self.rows().len(),
        ensures
            row == self.rows()[i as int],
    {
        self.rows[i]
    }

    fn position(&self, notary_id: u8, item: u64) -> (at: Option<usize>)
        ensures
            at is Some <==> has_key(self.rows@, (notary_id, item)),
            at is Some ==> at->Some_0 < self.rows@.len() && key_of(self.rows@[at->Some_0 as int])
                == (notary_id, item),
    {
        let mut i: usize = 0;
        while i < self.rows.len()
            invariant
                i <= self.rows@.len(),
                forall|j: int| 0 <= j < i ==> #[trigger] key_of(self.rows@[j]) != (notary_id, item),
            decreases self.rows@.len() - i,
        {
            if self.rows[i].notary_id == notary_id && self.rows[i].item == item {
                assert(key_of(self.rows@[i as int]) == (notary_id, item));
                return Some(i);
            }
            i += 1;
        }
        None
    }

    /// The times recorded for the pair of `notary_id` and `item`, if any.
    pub fn get(&self, notary_id: u8, item: u64) -> (found: Option<Seen>)
        requires
            self.wf(),
        ensures
            found is Some <==> self@.contains_key((notary_id, item)),
            found is Some ==> found->Some_0 == self@[(notary_id, item)],
    {
        match self.position(notary_id, item) {
            Some(i) => {
                proof {
                    lemma_row_found(self.rows@, i as int);
                }
                Some(Seen { first_seen: self.rows[i].first_seen, last_seen: self.rows[i].last_seen })
            },
            None => None,
        }
    }

    /// Records a sighting of the pair at `timestamp`: a pair that has a row
    /// gets its `last_seen` set and keeps its `first_seen`; a new pair gets a
    /// row with both set to `timestamp`. Returns whether a row was added.
    pub fn upsert(&mut self, notary_id: u8, item: u64, timestamp: u32) -> (inserted: bool)
        requires
            old(self).wf(),
        ensures
            final(self).wf(),
            final(self)@ == sighted(old(self)@, (notary_id, item), timestamp),
            inserted == !old(self)@.contains_key((notary_id, item)),
            final(self).rows().len() == old(self).rows().len() + if inserted {
                1int
            } else {
                0int
            },
    {
        let k: Ghost<(u8, u64)> = Ghost((notary_id, item));
        match self.position(notary_id, item) {
            Some(i) => {
                let first_seen: u32 = self.rows[i].first_seen;
                let row = SeenRow { notary_id, item, first_seen, last_seen: timestamp };
                self.rows[i] = row;
                proof {
                    let before = old(self).rows@;
                    let after = self.rows@;
                    assert(after =~= before.update(i as int, row));
                    lemma_row_found(before, i as int);
                    assert forall|a: int, b: int| 0 <= a < b < after.len() implies key_of(
                        after[a],
                    ) != key_of(after[b]) by {
                        assert(key_of(after[a]) == key_of(before[a]));
                        assert(key_of(after[b]) == key_of(before[b]));
                    }
                    lemma_row_found(after, i as int);
                    assert forall|q: (u8, u64)| has_key(after, q) == has_key(before, q) by {
                        if has_key(before, q) {
                            let j = row_at(before, q);
                            assert(key_of(after[j]) == q);
                        }
                        if has_key(after, q) {
                            let j = row_at(after, q);
                            assert(key_of(before[j]) == q);
                        }
                    }
                    assert forall|q: (u8, u64)| has_key(after, q) && q != k@ implies rows_map(
                        after,
                    )[q] == rows_map(before)[q] by {
                        let j = row_at(after, q);
                        assert(key_of(after[j]) == q);
                        assert(j != i);
                        assert(key_of(before[j]) == q);
                        lemma_row_found(before, j);
                    }
                    assert(rows_map(after) =~= sighted(rows_map(before), k@, timestamp));
                }
                false
            },
            None => {
                let row = SeenRow { notary_id, item, first_seen: timestamp, last_seen: timestamp };
                self.rows.push(row);
                proof {
                    let before = old(self).rows@;
                    let after = self.rows@;
                    let n = before.len() as int;
                    assert(after =~= before.push(row));
                    assert forall|a: int, b: int| 0 <= a < b < after.len() implies key_of(
                        after[a],
                    ) != key_of(after[b]) by {
                        assert(after[a] == before[a]);
                        if b < n {
                            assert(after[b] == before[b]);
                        } else {
                            assert(has_key(before, key_of(before[a])));
                        }
                    }
                    lemma_row_found(after, n);
                    assert forall|q: (u8, u64)| has_key(after, q) == (has_key(before, q) || q
                        == k@) by {
                        if has_key(before, q) {
                            let j = row_at(before, q);
                            assert(key_of(after[j]) == q);
                        }
                        if has_key(after, q) && q != k@ {
                            let j = row_at(after, q);
                            assert(j < n);
                            assert(key_of(before[j]) == q);
                        }
                    }
                    assert forall|q: (u8, u64)| has_key(before, q) implies rows_map(after)[q]
                        == rows_map(before)[q] by {
                        let j = row_at(before, q);
                        assert(key_of(after[j]) == q);
                        lemma_row_found(before, j);
                        lemma_row_found(after, j);
                    }
                    assert(rows_map(after) =~= sighted(rows_map(before), k@, timestamp));
                }
                true
            },
        }
    }
}

} // verus!
