//! A fixed-capacity hash table with open addressing and linear probing,
//! keyed by 32-bit symbols. It is built once and read afterwards.

use vstd::prelude::*;
use vstd::std_specs::hash::DefaultHasherAdditionalSpecFns;
use std::collections::hash_map::DefaultHasher;
use std::hash::Hasher;
use crate::util::reversed;

verus! {

/// Builds the hashers of a `HashRef`: every hasher starts in the same
/// state, so that a key has the same hash in every table.
#[derive(Debug, Clone, Copy)]
pub struct DetState;

impl DetState {
    /// A hasher that has taken no bytes yet.
    pub fn build_hasher(&self) -> (hasher: DefaultHasher)
        ensures
            hasher@ == Seq::<Seq<u8>>::empty(),
    {
        DefaultHasher::new()
    }
}

/// One slot of the table.
#[derive(Debug, Clone, Copy)]
pub enum HashRefSlot<Key, Value> {
    Full(Key, Value),
    Empty,
}

/// The bytes of a key as the hasher takes them, least significant first.
pub open spec fn key_bytes(key: u32) -> Seq<u8> {
    seq![
        (key % 0x100) as u8,
        (key / 0x100 % 0x100) as u8,
        (key / 0x1_0000 % 0x100) as u8,
        (key / 0x100_0000) as u8,
    ]
}

/// The hash of a key.
pub open spec fn hash_of(key: u32) -> u64 {
    DefaultHasher::spec_finish(seq![key_bytes(key)])
}

/// The slot at which the search for a key begins in a table of `capacity`
/// slots.
pub open spec fn home(key: u32, capacity: int) -> int {
    hash_of(key) as int % capacity
}

/// The slot that lies `steps` slots after `from`, around the end of the
/// table.
pub open spec fn probe(from: int, steps: int, capacity: int) -> int {
    (from + steps) % capacity
}

/// The number of steps from slot `from` to slot `to`, around the end of the
/// table.
pub open spec fn distance(from: int, to: int, capacity: int) -> int {
    (to - from) % capacity
}

/// The number of full slots among the first `n`.
pub open spec fn count_full<V>(slots: Seq<HashRefSlot<u32, V>>, n: int) -> int
    decreases n,
{
    if n <= 0 {
        0
    } else {
        count_full(slots, n - 1) + if slots[n - 1] is Full {
            1int
        } else {
            0int
        }
    }
}

/// Whether slot `i` holds `key`.
pub open spec fn holds<V>(slots: Seq<HashRefSlot<u32, V>>, i: int, key: u32) -> bool {
    0 <= i < slots.len() && slots[i] is Full && slots[i]->Full_0 == key
}

/// Whether the slots are a table: no key is held twice, and every slot
/// between the home of a key and the slot that holds it is full.
pub open spec fn is_table<V>(slots: Seq<HashRefSlot<u32, V>>) -> bool {
    &&& slots.len() > 0
    &&& forall|i: int, j: int, key: u32|
        #![trigger holds(slots, i, key), holds(slots, j, key)]
        holds(slots, i, key) && holds(slots, j, key) ==> i == j
    &&& forall|i: int, key: u32, t: int|
        #![trigger holds(slots, i, key), probe(home(key, slots.len() as int), t, slots.len() as int)]
        holds(slots, i, key) && 0 <= t < distance(
            home(key, slots.len() as int),
            i,
            slots.len() as int,
        ) ==> slots[probe(home(key, slots.len() as int), t, slots.len() as int)] is Full
}

/// What a table maps keys to.
pub open spec fn table_map<V>(slots: Seq<HashRefSlot<u32, V>>) -> Map<u32, V> {
    Map::new(
        |key: u32| exists|i: int| holds(slots, i, key),
        |key: u32| slots[choose|i: int| holds(slots, i, key)]->Full_1,
    )
}

/// What the first `n` pairs map keys to, later pairs before earlier ones.
pub open spec fn pairs_map<V>(data: Seq<(u32, V)>, n: int) -> Map<u32, V>
    decreases n,
{
    if n <= 0 {
        Map::empty()
    } else {
        pairs_map(data, n - 1).insert(data[n - 1].0, data[n - 1].1)
    }
}

/// The number of keys among the first `n` pairs: the pairs whose key none
/// of the pairs before them has.
pub open spec fn count_new<V>(data: Seq<(u32, V)>, n: int) -> int
    decreases n,
{
    if n <= 0 {
        0
    } else {
        count_new(data, n - 1) + if pairs_map(data, n - 1).contains_key(data[n - 1].0) {
            0int
        } else {
            1int
        }
    }
}

/// Probing goes around the table: for slots of a table with `capacity`
/// slots, going the distance from one to the other arrives there.
pub proof fn lemma_probe_distance(from: int, to: int, capacity: int)
    requires
        capacity > 0,
        0 <= from < capacity,
        0 <= to < capacity,
    ensures
        0 <= distance(from, to, capacity) < capacity,
        probe(from, distance(from, to, capacity), capacity) == to,
        forall|t: int| 0 <= t < capacity ==> 0 <= #[trigger] probe(from, t, capacity) < capacity,
{
    if to >= from {
        vstd::arithmetic::div_mod::lemma_small_mod((to - from) as nat, capacity as nat);
    } else {
        vstd::arithmetic::div_mod::lemma_mod_add_multiples_vanish(to - from, capacity);
        vstd::arithmetic::div_mod::lemma_small_mod((to - from + capacity) as nat, capacity as nat);
    }
    let d = distance(from, to, capacity);
    if from + d < capacity {
        vstd::arithmetic::div_mod::lemma_small_mod((from + d) as nat, capacity as nat);
    } else {
        vstd::arithmetic::div_mod::lemma_mod_add_multiples_vanish(from + d - capacity, capacity);
        vstd::arithmetic::div_mod::lemma_small_mod((from + d - capacity) as nat, capacity as nat);
    }
    assert forall|t: int| 0 <= t < capacity implies 0 <= #[trigger] probe(from, t, capacity)
        < capacity by {
        vstd::arithmetic::div_mod::lemma_mod_bound(from + t, capacity);
    }
}

/// The distance to the slot that a probe arrives at is the number of its
/// steps.
pub proof fn lemma_distance_probe(from: int, t: int, capacity: int)
    requires
        capacity > 0,
        0 <= from < capacity,
        0 <= t < capacity,
    ensures
        distance(from, probe(from, t, capacity), capacity) == t,
{
    let to = probe(from, t, capacity);
    if from + t < capacity {
        vstd::arithmetic::div_mod::lemma_small_mod((from + t) as nat, capacity as nat);
        vstd::arithmetic::div_mod::lemma_small_mod(t as nat, capacity as nat);
    } else {
        vstd::arithmetic::div_mod::lemma_mod_add_multiples_vanish(from + t - capacity, capacity);
        vstd::arithmetic::div_mod::lemma_small_mod((from + t - capacity) as nat, capacity as nat);
        assert(to == from + t - capacity);
        vstd::arithmetic::div_mod::lemma_mod_add_multiples_vanish(t - capacity, capacity);
        vstd::arithmetic::div_mod::lemma_small_mod(t as nat, capacity as nat);
    }
}

/// A search that has passed `steps` full slots without finding `key`, and
/// stands at an empty slot or has gone all around, shows that no slot holds
/// `key`.
pub proof fn lemma_search_ends<V>(slots: Seq<HashRefSlot<u32, V>>, key: u32, steps: int)
    requires
        is_table(slots),
        0 <= steps <= slots.len(),
        forall|t: int|
            0 <= t < steps ==> !holds(
                slots,
                #[trigger] probe(home(key, slots.len() as int), t, slots.len() as int),
                key,
            ),
        steps == slots.len() || slots[probe(
            home(key, slots.len() as int),
            steps,
            slots.len() as int,
        )] is Empty,
    ensures
        forall|i: int| !holds(slots, i, key),
        !table_map(slots).contains_key(key),
{
    let capacity = slots.len() as int;
    let start = home(key, capacity);
    vstd::arithmetic::div_mod::lemma_mod_bound(hash_of(key) as int, capacity);
    assert forall|i: int| !holds(slots, i, key) by {
        if holds(slots, i, key) {
            lemma_probe_distance(start, i, capacity);
            let d = distance(start, i, capacity);
            if d < steps {
                assert(!holds(slots, probe(start, d, capacity), key));
            } else {
                assert(steps < capacity);
                assert(slots[probe(start, steps, capacity)] is Full);
            }
        }
    }
}

/// Slots that are all full count as many keys as there are slots: a table
/// with fewer keys than slots has an empty slot.
pub proof fn lemma_has_empty<V>(slots: Seq<HashRefSlot<u32, V>>, n: int)
    requires
        0 <= n <= slots.len(),
        forall|i: int| 0 <= i < n ==> slots[i] is Full,
    ensures
        count_full(slots, n) == n,
    decreases n,
{
    if n > 0 {
        lemma_has_empty(slots, n - 1);
    }
}

/// Slots that are all empty hold no key.
pub proof fn lemma_all_empty<V>(slots: Seq<HashRefSlot<u32, V>>, n: int)
    requires
        0 <= n <= slots.len(),
        forall|i: int| 0 <= i < n ==> slots[i] is Empty,
    ensures
        count_full(slots, n) == 0,
    decreases n,
{
    if n > 0 {
        lemma_all_empty(slots, n - 1);
    }
}

/// Filling or refilling one slot changes the count of full slots by what
/// that slot adds.
pub proof fn lemma_count_update<V>(
    slots: Seq<HashRefSlot<u32, V>>,
    at: int,
    slot: HashRefSlot<u32, V>,
    n: int,
)
    requires
        0 <= at < slots.len(),
        0 <= n <= slots.len(),
        slot is Full,
    ensures
        count_full(slots.update(at, slot), n) == count_full(slots, n) + if at < n && slots[at]
            is Empty {
            1int
        } else {
            0int
        },
    decreases n,
{
    if n > 0 {
        lemma_count_update(slots, at, slot, n - 1);
    }
}

/// The hash of a key.
pub fn hash_key(state: &DetState, key: u32) -> (hash: u64)
    ensures
        hash == hash_of(key),
{
    let mut hasher = state.build_hasher();
    let mut bytes: Vec<u8> = Vec::new();
    bytes.push((key % 0x100) as u8);
    bytes.push((key / 0x100 % 0x100) as u8);
    bytes.push((key / 0x1_0000 % 0x100) as u8);
    bytes.push((key / 0x100_0000) as u8);
    assert(bytes@ =~= key_bytes(key));
    hasher.write(bytes.as_slice());
    assert(hasher@ =~= seq![key_bytes(key)]);
    hasher.finish()
}

/// A hash table that is built once and read afterwards.
#[derive(Debug)]
pub struct HashRef<Value> {
    pub slots: Vec<HashRefSlot<u32, Value>>,
    pub size: usize,
    pub state: DetState,
}

impl<Value> View for HashRef<Value> {
    type V = Map<u32, Value>;

    open spec fn view(&self) -> Map<u32, Value> {
        table_map(self.slots@)
    }
}

/// Walks over the full slots of a table, from the first slot on.
#[derive(Debug)]
pub struct HashRefIter<'a, Value> {
    pub slots: &'a Vec<HashRefSlot<u32, Value>>,
    pub slot_idx: usize,
}

/// The index of the first full slot at or after `from`, or the number of
/// slots where there is none.
pub open spec fn next_full<V>(slots: Seq<HashRefSlot<u32, V>>, from: int) -> int
    decreases slots.len() - from,
{
    if from < 0 || from >= slots.len() {
        slots.len() as int
    } else if slots[from] is Full {
        from
    } else {
        next_full(slots, from + 1)
    }
}

impl<'a, Value> HashRefIter<'a, Value> {
    /// The next key and value, in the order of the slots.
    pub fn next(&mut self) -> (r: Option<(&'a u32, &'a Value)>)
        requires
            old(self).slot_idx <= old(self).slots@.len(),
        ensures
            final(self).slots == old(self).slots,
            final(self).slot_idx <= final(self).slots@.len(),
            match r {
                Some((key, value)) => {
                    &&& next_full(old(self).slots@, old(self).slot_idx as int) < old(
                        self,
                    ).slots@.len()
                    &&& old(self).slots@[next_full(old(self).slots@, old(self).slot_idx as int)]
                        == HashRefSlot::Full(*key, *value)
                    &&& final(self).slot_idx == next_full(
                        old(self).slots@,
                        old(self).slot_idx as int,
                    ) + 1
                },
                None => next_full(old(self).slots@, old(self).slot_idx as int) == old(
                    self,
                ).slots@.len() && final(self).slot_idx == old(self).slots@.len(),
            },
    {
        let slots: &'a Vec<HashRefSlot<u32, Value>> = self.slots;
        while self.slot_idx < slots.len()
            invariant
                self.slot_idx <= slots@.len(),
                self.slots == old(self).slots,
                slots == old(self).slots,
                next_full(slots@, old(self).slot_idx as int) == next_full(
                    slots@,
                    self.slot_idx as int,
                ),
            decreases slots@.len() - self.slot_idx,
        {
            match &slots[self.slot_idx] {
                HashRefSlot::Full(key, value) => {
                    self.slot_idx = self.slot_idx + 1;
                    return Some((key, value));
                },
                HashRefSlot::Empty => {},
            }
            self.slot_idx = self.slot_idx + 1;
        }
        None
    }
}

impl<Value> HashRef<Value> {
    /// The table is well formed: its slots are a table, and `size` is the
    /// number of keys.
    pub open spec fn wf(&self) -> bool {
        is_table(self.slots@) && self.size == count_full(self.slots@, self.slots@.len() as int)
    }

    /// The number of keys.
    pub fn len(&self) -> (n: usize)
        ensures
            n == self.size,
    {
        self.size
    }

    /// The number of slots.
    pub fn capacity(&self) -> (n: usize)
        ensures
            n == self.slots@.len(),
    {
        self.slots.len()
    }

    /// A walk over the keys and values.
    pub fn iter(&self) -> (r: HashRefIter<'_, Value>)
        ensures
            r.slots == &self.slots,
            r.slot_idx == 0,
    {
        HashRefIter { slots: &self.slots, slot_idx: 0 }
    }

    /// The slot at which the search for `key` begins.
    fn home_of(&self, key: u32) -> (slot: usize)
        requires
            self.slots@.len() > 0,
        ensures
            slot == home(key, self.slots@.len() as int),
            slot < self.slots@.len(),
    {
        let hash: u64 = hash_key(&self.state, key);
        (hash % (self.slots.len() as u64)) as usize
    }

    /// The value of `key`, if the table holds the key.
    pub fn get(&self, key: &u32) -> (r: Option<&Value>)
        requires
            self.wf(),
        ensures
            match r {
                Some(value) => self@.contains_key(*key) && *value == self@[*key],
                None => !self@.contains_key(*key),
            },
    {
        let capacity: usize = self.slots.len();
        let start: usize = self.home_of(*key);
        let mut steps: usize = 0;
        let mut slot_idx: usize = start;
        proof {
            vstd::arithmetic::div_mod::lemma_small_mod(start as nat, capacity as nat);
        }
        while steps < capacity
            invariant
                self.wf(),
                capacity == self.slots@.len(),
                start == home(*key, capacity as int),
                0 <= steps <= capacity,
                slot_idx < capacity,
                steps < capacity ==> slot_idx == probe(start as int, steps as int, capacity as int),
                forall|t: int|
                    0 <= t < steps ==> !holds(
                        self.slots@,
                        #[trigger] probe(start as int, t, capacity as int),
                        *key,
                    ),
            decreases capacity - steps,
        {
            match &self.slots[slot_idx] {
                HashRefSlot::Full(slot_key, slot_value) => {
                    if *slot_key == *key {
                        proof {
                            assert(holds(self.slots@, slot_idx as int, *key));
                            let chosen = choose|i: int| holds(self.slots@, i, *key);
                            assert(holds(self.slots@, chosen, *key));
                        }
                        return Some(slot_value);
                    }
                },
                HashRefSlot::Empty => {
                    proof {
                        lemma_search_ends(self.slots@, *key, steps as int);
                    }
                    return None;
                },
            }
            proof {
                lemma_next_probe(start as int, steps as int, capacity as int);
            }
            steps = steps + 1;
            slot_idx = if slot_idx + 1 == capacity { 0 } else { slot_idx + 1 };
        }
        proof {
            lemma_search_ends(self.slots@, *key, steps as int);
        }
        None
    }
}

/// One step further is the next slot, around the end of the table.
pub proof fn lemma_next_probe(from: int, t: int, capacity: int)
    requires
        capacity > 0,
        0 <= from < capacity,
        0 <= t,
        t + 1 < capacity || t + 1 == capacity,
    ensures
        probe(from, t + 1, capacity) == if probe(from, t, capacity) + 1 == capacity {
            0
        } else {
            probe(from, t, capacity) + 1
        },
        0 <= probe(from, t, capacity) < capacity,
{
    vstd::arithmetic::div_mod::lemma_mod_bound(from + t, capacity);
    vstd::arithmetic::div_mod::lemma_fundamental_div_mod(from + t, capacity);
    vstd::arithmetic::div_mod::lemma_fundamental_div_mod(from + t + 1, capacity);
    let q = (from + t) / capacity;
    let r = (from + t) % capacity;
    if r + 1 == capacity {
        assert(from + t + 1 == capacity * (q + 1)) by (nonlinear_arith)
            requires
                from + t == capacity * q + r,
                r + 1 == capacity,
        ;
        vstd::arithmetic::div_mod::lemma_mod_multiples_basic(q + 1, capacity);
        assert(capacity * (q + 1) == (q + 1) * capacity) by (nonlinear_arith);
    } else {
        vstd::arithmetic::div_mod::lemma_fundamental_div_mod_converse(
            from + t + 1,
            capacity,
            q,
            r + 1,
        );
    }
}

/// Putting a pair into the slot where the search for its key has ended
/// keeps the table a table, and makes it map the key to the value.
pub proof fn lemma_put_keeps_table<V>(
    slots: Seq<HashRefSlot<u32, V>>,
    key: u32,
    value: V,
    steps: int,
)
    requires
        is_table(slots),
        0 <= steps < slots.len(),
        forall|t: int|
            0 <= t < steps ==> slots[#[trigger] probe(
                home(key, slots.len() as int),
                t,
                slots.len() as int,
            )] is Full && !holds(
                slots,
                probe(home(key, slots.len() as int), t, slots.len() as int),
                key,
            ),
        slots[probe(home(key, slots.len() as int), steps, slots.len() as int)] is Empty || holds(
            slots,
            probe(home(key, slots.len() as int), steps, slots.len() as int),
            key,
        ),
    ensures
        is_table(
            slots.update(
                probe(home(key, slots.len() as int), steps, slots.len() as int),
                HashRefSlot::Full(key, value),
            ),
        ),
        table_map(
            slots.update(
                probe(home(key, slots.len() as int), steps, slots.len() as int),
                HashRefSlot::Full(key, value),
            ),
        ) == table_map(slots).insert(key, value),
        table_map(slots).contains_key(key) <==> holds(
            slots,
            probe(home(key, slots.len() as int), steps, slots.len() as int),
            key,
        ),
{
    let capacity = slots.len() as int;
    let start = home(key, capacity);
    vstd::arithmetic::div_mod::lemma_mod_bound(hash_of(key) as int, capacity);
    lemma_probe_distance(start, 0, capacity);
    let at = probe(start, steps, capacity);
    let after = slots.update(at, HashRefSlot::Full(key, value));
    lemma_distance_probe(start, steps, capacity);
    if slots[at] is Empty {
        assert forall|t: int| 0 <= t < steps implies !holds(
            slots,
            #[trigger] probe(start, t, capacity),
            key,
        ) by {}
        lemma_search_ends(slots, key, steps);
    } else {
        assert(holds(slots, at, key));
    }
    assert forall|i: int, k: u32| holds(after, i, k) <==> (if i == at {
        k == key
    } else {
        holds(slots, i, k)
    }) by {}
    assert forall|i: int, j: int, k: u32|
        #![trigger holds(after, i, k), holds(after, j, k)]
        holds(after, i, k) && holds(after, j, k) implies i == j by {
        if i != j {
            if i == at {
                assert(holds(slots, j, key));
                if slots[at] is Full {
                    assert(holds(slots, at, key));
                }
            } else if j == at {
                assert(holds(slots, i, key));
                if slots[at] is Full {
                    assert(holds(slots, at, key));
                }
            } else {
                assert(holds(slots, i, k) && holds(slots, j, k));
            }
        }
    }
    assert forall|i: int, k: u32, t: int|
        #![trigger holds(after, i, k), probe(home(k, after.len() as int), t, after.len() as int)]
        holds(after, i, k) && 0 <= t < distance(home(k, capacity), i, capacity) implies after[probe(
        home(k, capacity),
        t,
        capacity,
    )] is Full by {
        let p = probe(home(k, capacity), t, capacity);
        vstd::arithmetic::div_mod::lemma_mod_bound(home(k, capacity) + t, capacity);
        if p != at {
            if i == at {
                assert(k == key);
                assert(slots[probe(start, t, capacity)] is Full);
            } else {
                assert(holds(slots, i, k));
                assert(slots[probe(home(k, capacity), t, capacity)] is Full);
            }
        }
    }
    assert(table_map(after) =~= table_map(slots).insert(key, value)) by {
        assert forall|k: u32| #[trigger]
            table_map(after).contains_key(k) <==> table_map(slots).insert(
                key,
                value,
            ).contains_key(k) by {
            if k == key {
                assert(holds(after, at, key));
            } else if table_map(slots).contains_key(k) {
                let i = choose|i: int| holds(slots, i, k);
                assert(holds(after, i, k));
            } else if table_map(after).contains_key(k) {
                let i = choose|i: int| holds(after, i, k);
                assert(holds(slots, i, k));
            }
        }
        assert forall|k: u32| #[trigger]
            table_map(after).contains_key(k) implies table_map(after)[k] == table_map(
            slots,
        ).insert(key, value)[k] by {
            let i = choose|i: int| holds(after, i, k);
            assert(holds(after, i, k));
            if k == key {
                assert(holds(after, at, key));
                assert(i == at);
            } else {
                assert(holds(slots, i, k));
                let j = choose|j: int| holds(slots, j, k);
                assert(holds(slots, j, k));
                assert(i == j);
            }
        }
    }
}

/// The number of keys grows with the number of pairs.
pub proof fn lemma_count_new_grows<V>(data: Seq<(u32, V)>, n: int, m: int)
    requires
        0 <= n <= m,
    ensures
        0 <= count_new(data, n) <= count_new(data, m),
    decreases m,
{
    if n < m {
        lemma_count_new_grows(data, n, m - 1);
    } else if n > 0 {
        lemma_count_new_grows(data, n - 1, n - 1);
    }
}

impl<Value> HashRef<Value> {
    /// Puts a pair into the table.
    fn put(&mut self, key: u32, value: Value)
        requires
            old(self).wf(),
            old(self).size < old(self).slots@.len(),
        ensures
            final(self).wf(),
            final(self).slots@.len() == old(self).slots@.len(),
            final(self)@ == old(self)@.insert(key, value),
            final(self).size == old(self).size + if old(self)@.contains_key(key) {
                0int
            } else {
                1int
            },
    {
        let capacity: usize = self.slots.len();
        let start: usize = self.home_of(key);
        let mut steps: usize = 0;
        let mut slot_idx: usize = start;
        proof {
            vstd::arithmetic::div_mod::lemma_small_mod(start as nat, capacity as nat);
        }
        while steps < capacity
            invariant
                self.wf(),
                *self == *old(self),
                capacity == self.slots@.len(),
                self.size < capacity,
                start == home(key, capacity as int),
                0 <= steps <= capacity,
                slot_idx < capacity,
                steps < capacity ==> slot_idx == probe(start as int, steps as int, capacity as int),
                forall|t: int|
                    0 <= t < steps ==> self.slots@[#[trigger] probe(
                        start as int,
                        t,
                        capacity as int,
                    )] is Full && !holds(
                        self.slots@,
                        probe(start as int, t, capacity as int),
                        key,
                    ),
            decreases capacity - steps,
        {
            let found: bool = match &self.slots[slot_idx] {
                HashRefSlot::Full(slot_key, _) => *slot_key == key,
                HashRefSlot::Empty => true,
            };
            if found {
                let was_empty: bool = match &self.slots[slot_idx] {
                    HashRefSlot::Full(_, _) => false,
                    HashRefSlot::Empty => true,
                };
                proof {
                    lemma_put_keeps_table(self.slots@, key, value, steps as int);
                    lemma_count_update(
                        self.slots@,
                        slot_idx as int,
                        HashRefSlot::Full(key, value),
                        capacity as int,
                    );
                }
                self.slots.set(slot_idx, HashRefSlot::Full(key, value));
                if was_empty {
                    self.size = self.size + 1;
                }
                return ;
            }
            proof {
                lemma_next_probe(start as int, steps as int, capacity as int);
            }
            steps = steps + 1;
            slot_idx = if slot_idx + 1 == capacity { 0 } else { slot_idx + 1 };
        }
        proof {
            assert forall|i: int| 0 <= i < capacity implies self.slots@[i] is Full by {
                lemma_probe_distance(start as int, i, capacity as int);
                let t = distance(start as int, i, capacity as int);
                assert(self.slots@[probe(start as int, t, capacity as int)] is Full);
            }
            lemma_has_empty(self.slots@, capacity as int);
        }
    }

    /// A table of `capacity` slots that maps each key of `data` to the
    /// value of the last pair with that key. The table must keep one slot
    /// empty: `data` holds fewer keys than the table has slots.
    pub fn new(capacity: usize, data: Vec<(u32, Value)>) -> (r: HashRef<Value>)
        requires
            capacity > 0,
            count_new(data@, data@.len() as int) < capacity,
        ensures
            r.wf(),
            r@ == pairs_map(data@, data@.len() as int),
            r.size == count_new(data@, data@.len() as int),
            r.slots@.len() == capacity,
    {
        let mut slots: Vec<HashRefSlot<u32, Value>> = Vec::new();
        let mut made: usize = 0;
        while made < capacity
            invariant
                made <= capacity,
                slots@.len() == made,
                forall|i: int| 0 <= i < made ==> slots@[i] is Empty,
            decreases capacity - made,
        {
            slots.push(HashRefSlot::Empty);
            made = made + 1;
        }
        proof {
            lemma_all_empty(slots@, capacity as int);
        }
        let mut table = HashRef { slots, size: 0, state: DetState };
        assert(table@ =~= Map::<u32, Value>::empty());
        let ghost all = data@;
        let total: usize = data.len();
        let mut rest: Vec<(u32, Value)> = reversed(data);
        let mut done: usize = 0;
        while rest.len() > 0
            invariant
                table.wf(),
                table.slots@.len() == capacity,
                total == all.len(),
                done + rest@.len() == all.len(),
                rest@ == all.reverse().subrange(0, rest@.len() as int),
                table@ == pairs_map(all, done as int),
                table.size == count_new(all, done as int),
                count_new(all, all.len() as int) < capacity,
            decreases rest@.len(),
        {
            let (key, value) = rest.pop().unwrap();
            proof {
                assert((key, value) == all[done as int]);
                lemma_count_new_grows(all, (done + 1) as int, all.len() as int);
            }
            table.put(key, value);
            done = done + 1;
        }
        table
    }
}

} // verus!
