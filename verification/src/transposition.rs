//! The transposition table: a direct-mapped cache from position keys to
//! search results, with a replacement policy by depth, age and node type.

use vstd::bytes::{
    lemma_auto_spec_u32_to_from_le_bytes,
    lemma_auto_spec_u64_to_from_le_bytes,
    spec_u32_to_le_bytes,
    spec_u64_to_le_bytes,
};
use vstd::prelude::*;
use vstd::std_specs::convert::FromSpecImpl;
use crate::bytes::{
    i32_at,
    i32_bytes,
    push_i32,
    push_u32,
    push_u64,
    read_i32,
    read_u32,
    read_u64,
    u32_at,
    u64_at,
};

verus! {

/// What the value of an entry says about the true score of its position.
#[derive(Clone, Copy, Debug, PartialEq, Eq, Structural)]
pub enum NodeType {
    /// The value is the score.
    Exact,
    /// The score is at least the value: the search was cut off above beta.
    LowerBound,
    /// The score is at most the value: no move raised alpha.
    UpperBound,
}

impl NodeType {
    /// The byte that stands for a node type in a stored table.
    pub open spec fn spec_code(self) -> u8 {
        match self {
            NodeType::Exact => 0,
            NodeType::LowerBound => 1,
            NodeType::UpperBound => 2,
        }
    }

    /// The node type that a byte stands for; an unknown byte reads as
    /// `Exact`.
    pub open spec fn spec_from_code(v: u8) -> NodeType {
        if v == 1 {
            NodeType::LowerBound
        } else if v == 2 {
            NodeType::UpperBound
        } else {
            NodeType::Exact
        }
    }
}

impl From<u8> for NodeType {
    fn from(v: u8) -> (n: NodeType) {
        match v {
            0 => NodeType::Exact,
            1 => NodeType::LowerBound,
            2 => NodeType::UpperBound,
            _ => NodeType::Exact,
        }
    }
}

impl FromSpecImpl<u8> for NodeType {
    open spec fn obeys_from_spec() -> bool {
        true
    }

    open spec fn from_spec(v: u8) -> NodeType {
        NodeType::spec_from_code(v)
    }
}

impl From<NodeType> for u8 {
    fn from(n: NodeType) -> (v: u8) {
        match n {
            NodeType::Exact => 0,
            NodeType::LowerBound => 1,
            NodeType::UpperBound => 2,
        }
    }
}

impl FromSpecImpl<NodeType> for u8 {
    open spec fn obeys_from_spec() -> bool {
        true
    }

    open spec fn from_spec(n: NodeType) -> u8 {
        n.spec_code()
    }
}

/// Reading the byte of a node type gives the node type back.
pub proof fn lemma_node_code_round_trip(n: NodeType)
    ensures
        NodeType::spec_from_code(n.spec_code()) == n,
{
}

/// A move in 18 bits: bits 0 to 6 the square it leaves, bits 7 to 13 the
/// square it reaches, bits 14 to 17 what the pawn becomes (0 for nothing).
#[derive(Clone, Copy, Debug, PartialEq, Eq, Structural)]
pub struct PackedMove(pub u32);

impl View for PackedMove {
    type V = u32;

    open spec fn view(&self) -> u32 {
        self.0
    }
}

/// The bits of a move.
pub open spec fn pack_bits(from: usize, to: usize, promo_id: u8) -> u32 {
    ((from as u32) & 0x7F) | (((to as u32) & 0x7F) << 7) | (((promo_id as u32) & 0x0F) << 14)
}

/// The three fields of a packed move.
pub open spec fn unpack_bits(raw: u32) -> (usize, usize, u8) {
    ((raw & 0x7F) as usize, ((raw >> 7) & 0x7F) as usize, ((raw >> 14) & 0x0F) as u8)
}

/// Unpacking a packed move gives its three fields back, each cut to its
/// width.
pub proof fn lemma_pack_unpack(from: usize, to: usize, promo_id: u8)
    ensures
        unpack_bits(pack_bits(from, to, promo_id)) == ((from % 128) as usize, (to % 128) as usize, (
            promo_id % 16) as u8),
        unpack_bits(pack_bits(from, to, promo_id)).0 < 128,
        unpack_bits(pack_bits(from, to, promo_id)).1 < 128,
        unpack_bits(pack_bits(from, to, promo_id)).2 < 16,
        (from < 128 && to < 128 && promo_id < 16 && (from != 0 || to != 0 || promo_id != 0))
            ==> pack_bits(from, to, promo_id) != 0,
{
    let f = (from as u32) & 0x7F;
    let t = (to as u32) & 0x7F;
    let p = (promo_id as u32) & 0x0F;
    let raw = f | (t << 7) | (p << 14);
    assert(f == from % 128) by (bit_vector)
        requires
            f == (from as u32) & 0x7F,
    ;
    assert(t == to % 128) by (bit_vector)
        requires
            t == (to as u32) & 0x7F,
    ;
    assert(p == promo_id % 16) by (bit_vector)
        requires
            p == (promo_id as u32) & 0x0F,
    ;
    assert(raw & 0x7F == f && (raw >> 7) & 0x7F == t && (raw >> 14) & 0x0F == p && (raw == 0 ==> f
        == 0 && t == 0 && p == 0)) by (bit_vector)
        requires
            raw == f | (t << 7) | (p << 14),
            f < 128,
            t < 128,
            p < 16,
    ;
}

impl PackedMove {
    /// No move: all bits zero.
    pub fn none() -> (r: PackedMove)
        ensures
            r@ == 0,
    {
        PackedMove(0)
    }

    /// Packs a move; each field is cut to its width.
    pub fn pack(from: usize, to: usize, promo_id: u8) -> (r: PackedMove)
        ensures
            r@ == pack_bits(from, to, promo_id),
            unpack_bits(r@) == ((from % 128) as usize, (to % 128) as usize, (promo_id % 16) as u8),
    {
        proof {
            lemma_pack_unpack(from, to, promo_id);
        }
        let f = (from as u32) & 0x7F;
        let t = (to as u32) & 0x7F;
        let p = (promo_id as u32) & 0x0F;
        PackedMove((f) | (t << 7) | (p << 14))
    }

    /// The square left, the square reached and the promotion id.
    pub fn unpack(&self) -> (r: (usize, usize, u8))
        ensures
            r == unpack_bits(self@),
            r.0 < 128,
            r.1 < 128,
            r.2 < 16,
    {
        let raw = self.0;
        assert((raw & 0x7F) < 128 && ((raw >> 7) & 0x7F) < 128 && ((raw >> 14) & 0x0F) < 16)
            by (bit_vector);
        let f = (raw & 0x7F) as usize;
        let t = ((raw >> 7) & 0x7F) as usize;
        let p = ((raw >> 14) & 0x0F) as u8;
        (f, t, p)
    }

    /// The packed move with the given bits.
    pub fn from_raw(raw: u32) -> (r: PackedMove)
        ensures
            r@ == raw,
    {
        PackedMove(raw)
    }

    /// The bits of the packed move.
    pub fn raw(&self) -> (r: u32)
        ensures
            r == self@,
    {
        self.0
    }

    /// Whether this is no move.
    pub fn is_none(&self) -> (b: bool)
        ensures
            b == (self@ == 0),
    {
        self.0 == 0
    }
}

/// One slot of the table.
#[derive(Clone, Copy, Debug)]
pub struct TTEntry {
    pub key: u64,
    pub value: i32,
    /// The depth of the search that gave the value; negative in an empty
    /// slot.
    pub depth: i32,
    pub node: NodeType,
    /// The generation of the search that wrote the entry.
    pub age: u8,
    pub best: PackedMove,
}

impl TTEntry {
    pub open spec fn spec_is_empty(&self) -> bool {
        self.depth < 0
    }

    /// The entry of an empty slot: depth -1, everything else zero.
    pub open spec fn spec_empty() -> TTEntry {
        TTEntry {
            key: 0,
            value: 0,
            depth: (-1) as i32,
            node: NodeType::Exact,
            age: 0,
            best: PackedMove(0),
        }
    }

    /// The entry of an empty slot.
    #[verifier::when_used_as_spec(spec_empty)]
    pub fn empty() -> (e: TTEntry)
        ensures
            e == TTEntry::spec_empty(),
            e.key == 0,
            e.value == 0,
            e.depth == -1,
            e.node == NodeType::Exact,
            e.age == 0,
            e.best@ == 0,
            e.spec_is_empty(),
    {
        TTEntry {
            key: 0,
            value: 0,
            depth: -1,
            node: NodeType::Exact,
            age: 0,
            best: PackedMove::none(),
        }
    }

    #[verifier::when_used_as_spec(spec_is_empty)]
    pub fn is_empty(&self) -> (b: bool)
        ensures
            b == self.spec_is_empty(),
    {
        self.depth < 0
    }
}

/// What a probe finds.
#[derive(Clone, Copy, Debug)]
pub enum ProbeResult {
    /// The slot is empty or holds another key.
    Miss,
    /// The key is there, but the entry is too shallow or its bound does not
    /// cut the window; it serves for its move.
    Found(TTEntry),
    /// The key is there and the value can be returned at once.
    Usable(i32, Option<PackedMove>),
}

/// The result of probing a slot that holds `e`.
pub open spec fn probe_entry(e: TTEntry, key: u64, depth: i32, alpha: i32, beta: i32) -> ProbeResult {
    if e.depth < 0 || e.key != key {
        ProbeResult::Miss
    } else if e.depth >= depth && (e.node == NodeType::Exact || (e.node == NodeType::LowerBound
        && e.value >= beta) || (e.node == NodeType::UpperBound && e.value <= alpha)) {
        ProbeResult::Usable(e.value, Some(e.best))
    } else {
        ProbeResult::Found(e)
    }
}

/// At equal depth and age a new entry wins if it is exact, or a lower bound
/// against an upper bound.
pub open spec fn node_preferred(new: NodeType, old: NodeType) -> bool {
    new == NodeType::Exact || (new == NodeType::LowerBound && old == NodeType::UpperBound)
}

/// Whether `new`, written in generation `new.age`, takes the slot of `old`:
/// always if the slot is empty or the new search went deeper; at equal
/// depth if it comes from another generation, is of a preferred node type,
/// or has the same key; at lower depth only if the old entry comes from
/// another generation.
pub open spec fn replaces(old: TTEntry, new: TTEntry) -> bool {
    ||| old.depth < 0
    ||| new.depth > old.depth
    ||| (new.depth == old.depth && (new.age != old.age || node_preferred(new.node, old.node)
        || old.key == new.key))
    ||| (new.depth < old.depth && old.age != new.age)
}

/// The key folded onto itself, to spread neighbouring keys.
pub open spec fn fold_key(key: u64) -> u64 {
    key ^ (key >> 32) ^ (key >> 16)
}

/// The slot of a key in a table of `len` slots.
pub open spec fn slot_of(key: u64, len: nat) -> int {
    ((#[verifier::truncate] (fold_key(key) as usize)) & ((len - 1) as usize)) as int
}

/// The slot of a key is a slot of the table.
pub proof fn lemma_slot_in_range(key: u64, len: nat)
    requires
        1 <= len <= usize::MAX,
    ensures
        0 <= slot_of(key, len) < len,
{
    let x = #[verifier::truncate] (fold_key(key) as usize);
    let m = (len - 1) as usize;
    assert(x & m <= m) by (bit_vector);
}

/// A power of two.
pub open spec fn power_of_two(n: int) -> bool
    decreases n,
{
    n >= 1 && (n == 1 || (n % 2 == 0 && power_of_two(n / 2)))
}

/// The mathematical model of a [`TranspositionTable`].
pub struct TableState {
    pub buckets: Seq<TTEntry>,
    /// The current generation.
    pub age: u8,
    pub probes: u64,
    pub hits: u64,
    pub stores: u64,
}

impl TableState {
    /// The entry in the slot of `key`.
    pub open spec fn entry_for(self, key: u64) -> TTEntry {
        self.buckets[slot_of(key, self.buckets.len())]
    }

    /// The entry that a store writes.
    pub open spec fn new_entry(
        self,
        key: u64,
        depth: i32,
        value: i32,
        node: NodeType,
        best: u32,
    ) -> TTEntry {
        TTEntry { key, value, depth, node, age: self.age, best: PackedMove(best) }
    }

    /// The table after a store: the entry is written if the replacement
    /// policy lets it take the slot of its key, and the store is counted.
    pub open spec fn store(self, key: u64, depth: i32, value: i32, node: NodeType, best: u32) -> TableState {
        let new = self.new_entry(key, depth, value, node, best);
        TableState {
            buckets: if self.buckets.len() >= 1 && replaces(self.entry_for(key), new) {
                self.buckets.update(slot_of(key, self.buckets.len()), new)
            } else {
                self.buckets
            },
            stores: self.stores.wrapping_add(1),
            ..self
        }
    }

    /// What a probe returns; a table without slots holds nothing.
    pub open spec fn probe(self, key: u64, depth: i32, alpha: i32, beta: i32) -> ProbeResult {
        if self.buckets.len() >= 1 {
            probe_entry(self.entry_for(key), key, depth, alpha, beta)
        } else {
            ProbeResult::Miss
        }
    }

    /// The best move stored for a key, if the key is there with one.
    pub open spec fn best_move_for(self, key: u64) -> Option<(usize, usize, u8)> {
        if self.buckets.len() == 0 || self.entry_for(key).key != key || self.entry_for(key).depth
            < 0 || self.entry_for(key).best@ == 0 {
            None
        } else {
            Some(unpack_bits(self.entry_for(key).best@))
        }
    }
}

pub struct TranspositionTable {
    /// The slots.
    pub buckets: Vec<TTEntry>,
    /// The generation of the current search.
    pub age: u8,
    pub probes: u64,
    pub hits: u64,
    pub stores: u64,
}

impl View for TranspositionTable {
    type V = TableState;

    open spec fn view(&self) -> TableState {
        TableState {
            buckets: self.buckets@,
            age: self.age,
            probes: self.probes,
            hits: self.hits,
            stores: self.stores,
        }
    }
}

/// The bits of a best move handed to `store`.
pub open spec fn best_bits(best_move: Option<(usize, usize, u8)>) -> u32 {
    match best_move {
        Some((from, to, promo_id)) => pack_bits(from, to, promo_id),
        None => 0,
    }
}

impl TranspositionTable {
    /// A table of the least power of two of slots that is at least
    /// `buckets`, all empty, in generation one.
    pub fn new_buckets(buckets: usize) -> (t: TranspositionTable)
        requires
            1 <= buckets <= usize::MAX / 2 + 1,
        ensures
            power_of_two(t@.buckets.len() as int),
            buckets <= t@.buckets.len() < 2 * buckets,
            forall|i: int| 0 <= i < t@.buckets.len() ==> (#[trigger] t@.buckets[i]).depth < 0,
            t@.age == 1,
            t@.probes == 0,
            t@.hits == 0,
            t@.stores == 0,
    {
        let mut count: usize = 1;
        while count < buckets
            invariant
                1 <= count < 2 * buckets,
                buckets <= usize::MAX / 2 + 1,
                power_of_two(count as int),
            decreases 2 * buckets - count,
        {
            count = count * 2;
        }
        let mut v: Vec<TTEntry> = Vec::new();
        let mut i: usize = 0;
        while i < count
            invariant
                i <= count,
                v@.len() == i,
                forall|j: int| 0 <= j < v@.len() ==> (#[trigger] v@[j]).depth < 0,
            decreases count - i,
        {
            v.push(TTEntry::empty());
            i += 1;
        }
        TranspositionTable { buckets: v, age: 1, probes: 0, hits: 0, stores: 0 }
    }

    /// A table that fits in `size_mb` megabytes at 24 bytes an entry: the
    /// greatest power of two of slots that does, and at least one.
    pub fn new_strict_size_mb(size_mb: usize) -> (t: TranspositionTable)
        requires
            size_mb * 1024 * 1024 <= usize::MAX,
        ensures
            power_of_two(t@.buckets.len() as int),
            size_mb * 1024 * 1024 / 24 >= 1 ==> t@.buckets.len() <= size_mb * 1024 * 1024 / 24 < 2
                * t@.buckets.len(),
            size_mb * 1024 * 1024 / 24 < 1 ==> t@.buckets.len() == 1,
            forall|i: int| 0 <= i < t@.buckets.len() ==> (#[trigger] t@.buckets[i]).depth < 0,
            t@.age == 1,
            t@.probes == 0,
            t@.hits == 0,
            t@.stores == 0,
    {
        let total_bytes = size_mb * 1024 * 1024;
        let mut buckets = total_bytes / 24;
        if buckets == 0 {
            buckets = 1;
        }
        let mut count: usize = 1;
        while count <= buckets / 2
            invariant
                1 <= count <= buckets,
                power_of_two(count as int),
            decreases buckets - count,
        {
            count = count * 2;
        }
        let t = TranspositionTable::new_buckets(count);
        proof {
            lemma_power_of_two_between(count as int, t@.buckets.len() as int);
        }
        t
    }

    /// The slot of a key, in a table that has slots.
    fn index_of(&self, key: u64) -> (idx: usize)
        requires
            self@.buckets.len() >= 1,
        ensures
            idx == slot_of(key, self@.buckets.len()),
            idx < self@.buckets.len(),
    {
        let folded = key ^ (key >> 32) ^ (key >> 16);
        let n = self.buckets.len();
        proof {
            lemma_slot_in_range(key, n as nat);
        }
        (#[verifier::truncate] (folded as usize)) & (n - 1)
    }

    /// Starts a new generation: the age goes up by one and wraps around.
    pub fn new_search(&mut self)
        ensures
            final(self)@ == (TableState { age: old(self)@.age.wrapping_add(1), ..old(self)@ }),
    {
        self.age = self.age.wrapping_add(1);
    }

    /// Looks a key up for a search of `depth` with the window `alpha`,
    /// `beta`, and counts the probe, and the hit if the key is there.
    pub fn probe(&mut self, key: u64, depth: i32, alpha: i32, beta: i32) -> (r: ProbeResult)
        ensures
            r == old(self)@.probe(key, depth, alpha, beta),
            final(self)@ == (TableState {
                probes: old(self)@.probes.wrapping_add(1),
                hits: if r is Miss {
                    old(self)@.hits
                } else {
                    old(self)@.hits.wrapping_add(1)
                },
                ..old(self)@
            }),
    {
        self.probes = self.probes.wrapping_add(1);
        if self.buckets.len() == 0 {
            return ProbeResult::Miss;
        }
        let idx = self.index_of(key);
        let entry = self.buckets[idx];
        if entry.is_empty() || entry.key != key {
            return ProbeResult::Miss;
        }
        self.hits = self.hits.wrapping_add(1);
        if entry.depth >= depth {
            match entry.node {
                NodeType::Exact => {
                    return ProbeResult::Usable(entry.value, Some(entry.best));
                },
                NodeType::LowerBound => {
                    if entry.value >= beta {
                        return ProbeResult::Usable(entry.value, Some(entry.best));
                    } else {
                        return ProbeResult::Found(entry);
                    }
                },
                NodeType::UpperBound => {
                    if entry.value <= alpha {
                        return ProbeResult::Usable(entry.value, Some(entry.best));
                    } else {
                        return ProbeResult::Found(entry);
                    }
                },
            }
        } else {
            return ProbeResult::Found(entry);
        }
    }

    /// Offers an entry to the slot of its key; the replacement policy
    /// decides whether it is written. The store is counted either way.
    pub fn store(
        &mut self,
        key: u64,
        depth: i32,
        value: i32,
        node: NodeType,
        best_move: Option<(usize, usize, u8)>,
    )
        ensures
            final(self)@ == old(self)@.store(key, depth, value, node, best_bits(best_move)),
    {
        self.stores = self.stores.wrapping_add(1);
        if self.buckets.len() == 0 {
            return ;
        }
        let idx = self.index_of(key);
        let old_entry = self.buckets[idx];
        let mut packed = PackedMove::none();
        if let Some((from, to, promo_id)) = best_move {
            packed = PackedMove::pack(from, to, promo_id);
        }
        let new_entry = TTEntry { key, value, depth, node, age: self.age, best: packed };
        let replace = if old_entry.is_empty() {
            true
        } else if new_entry.depth > old_entry.depth {
            true
        } else if new_entry.depth == old_entry.depth {
            if new_entry.age != old_entry.age {
                true
            } else {
                match (new_entry.node, old_entry.node) {
                    (NodeType::Exact, _) => true,
                    (NodeType::LowerBound, NodeType::UpperBound) => true,
                    (_, _) => false,
                }
            }
        } else {
            old_entry.age != self.age
        };
        if replace {
            self.buckets[idx] = new_entry;
        } else {
            if old_entry.key == key && new_entry.depth >= old_entry.depth {
                self.buckets[idx] = new_entry;
            }
        }
    }

    /// Empties every slot and resets the generation and the counters.
    pub fn clear(&mut self)
        ensures
            final(self)@.buckets.len() == old(self)@.buckets.len(),
            forall|i: int|
                0 <= i < final(self)@.buckets.len() ==> (#[trigger] final(self)@.buckets[i])
                    == TTEntry::spec_empty(),
            final(self)@.age == 1,
            final(self)@.probes == 0,
            final(self)@.hits == 0,
            final(self)@.stores == 0,
    {
        let n = self.buckets.len();
        let mut i: usize = 0;
        while i < n
            invariant
                i <= n,
                n == self.buckets@.len(),
                forall|j: int|
                    0 <= j < i ==> (#[trigger] self.buckets@[j]) == TTEntry::spec_empty(),
            decreases n - i,
        {
            self.buckets[i] = TTEntry::empty();
            i += 1;
        }
        self.age = 1;
        self.probes = 0;
        self.hits = 0;
        self.stores = 0;
    }

    /// The number of slots.
    pub fn bucket_count(&self) -> (n: usize)
        ensures
            n == self@.buckets.len(),
    {
        self.buckets.len()
    }

    /// The entry in the slot of a key, whatever key it holds; the empty
    /// entry for a table without slots.
    pub fn entry_for(&self, key: u64) -> (e: TTEntry)
        ensures
            e == (if self@.buckets.len() >= 1 {
                self@.entry_for(key)
            } else {
                TTEntry::spec_empty()
            }),
    {
        if self.buckets.len() == 0 {
            return TTEntry::empty();
        }
        let idx = self.index_of(key);
        self.buckets[idx]
    }

    /// The best move stored for a key, if the key is there with one.
    pub fn best_move_for(&self, key: u64) -> (r: Option<(usize, usize, u8)>)
        ensures
            r == self@.best_move_for(key),
    {
        if self.buckets.len() == 0 {
            return None;
        }
        let idx = self.index_of(key);
        let e = self.buckets[idx];
        if e.key != key || e.is_empty() {
            None
        } else {
            let (f, t, p) = e.best.unpack();
            if e.best.is_none() {
                None
            } else {
                Some((f, t, p))
            }
        }
    }

    /// The generation of the current search.
    pub fn current_age(&self) -> (a: u8)
        ensures
            a == self@.age,
    {
        self.age
    }

    /// How many probes were made.
    pub fn probe_count(&self) -> (n: u64)
        ensures
            n == self@.probes,
    {
        self.probes
    }

    /// How many probes found their key.
    pub fn hit_count(&self) -> (n: u64)
        ensures
            n == self@.hits,
    {
        self.hits
    }

    /// How many stores were offered.
    pub fn store_count(&self) -> (n: u64)
        ensures
            n == self@.stores,
    {
        self.stores
    }
}

/// Between a power of two and its double there is no other power of two.
proof fn lemma_power_of_two_between(a: int, b: int)
    requires
        power_of_two(a),
        power_of_two(b),
        a <= b < 2 * a,
    ensures
        a == b,
    decreases a,
{
    if a == 1 {
        if b != 1 {
            assert(b % 2 == 0);
        }
    } else {
        if b == 1 {
        } else {
            lemma_power_of_two_between(a / 2, b / 2);
        }
    }
}

/// A store that the policy accepts, of an exact value at a depth that is
/// not negative, makes every probe of that key at that depth or less return
/// the value at once, with the stored move.
pub proof fn law_probe_after_store(
    t: TableState,
    key: u64,
    depth: i32,
    value: i32,
    best: u32,
    probe_depth: i32,
    alpha: i32,
    beta: i32,
)
    requires
        1 <= t.buckets.len() <= usize::MAX,
        depth >= 0,
        probe_depth <= depth,
        replaces(t.entry_for(key), t.new_entry(key, depth, value, NodeType::Exact, best)),
    ensures
        t.store(key, depth, value, NodeType::Exact, best).probe(key, probe_depth, alpha, beta)
            == ProbeResult::Usable(value, Some(PackedMove(best))),
{
    lemma_slot_in_range(key, t.buckets.len());
}

/// Over an entry of the same key, depth and generation, an exact entry is
/// written whatever the node type of the old entry.
pub proof fn law_exact_overrides(t: TableState, key: u64, depth: i32, value: i32, best: u32)
    requires
        1 <= t.buckets.len() <= usize::MAX,
        t.entry_for(key).key == key,
        t.entry_for(key).depth == depth,
        t.entry_for(key).age == t.age,
    ensures
        t.store(key, depth, value, NodeType::Exact, best).entry_for(key) == t.new_entry(
            key,
            depth,
            value,
            NodeType::Exact,
            best,
        ),
{
    lemma_slot_in_range(key, t.buckets.len());
}

// -------------------------------------------------------------- persistence

/// The number that a stored table begins with: the letters `TTAB`.
pub const TABLE_MAGIC: u64 = 0x54544142;

/// The number of bytes of a stored entry.
pub const ENTRY_BYTES: usize = 22;

/// Why a stored table was not loaded.
#[derive(Clone, Copy, Debug, PartialEq, Eq, Structural)]
pub enum TableLoadError {
    /// The bytes end before the table does.
    Truncated,
    /// The bytes do not begin with the magic number.
    BadMagic,
    /// The stored table has another number of slots than this one.
    BucketCountMismatch,
}

/// The 22 bytes of a stored entry: key, value, depth, node type, age and
/// packed move, the numbers in little-endian order.
pub open spec fn entry_bytes(e: TTEntry) -> Seq<u8> {
    spec_u64_to_le_bytes(e.key) + i32_bytes(e.value) + i32_bytes(e.depth) + seq![
        e.node.spec_code(),
    ] + seq![e.age] + spec_u32_to_le_bytes(e.best@)
}

/// The bytes of the first `n` entries.
pub open spec fn entries_bytes(buckets: Seq<TTEntry>, n: int) -> Seq<u8>
    decreases n,
{
    if n <= 0 {
        Seq::empty()
    } else {
        entries_bytes(buckets, n - 1) + entry_bytes(buckets[n - 1])
    }
}

/// The bytes of a stored table: the magic number in eight bytes, the
/// number of slots in four, then the entries.
pub open spec fn table_bytes(t: TableState) -> Seq<u8> {
    spec_u64_to_le_bytes(TABLE_MAGIC) + spec_u32_to_le_bytes(t.buckets.len() as u32)
        + entries_bytes(t.buckets, t.buckets.len() as int)
}

/// The entry stored in the 22 bytes from `off` on. A node type byte other
/// than 1 and 2 reads as exact.
pub open spec fn entry_at(bytes: Seq<u8>, off: int) -> TTEntry {
    TTEntry {
        key: u64_at(bytes, off),
        value: i32_at(bytes, off + 8),
        depth: i32_at(bytes, off + 12),
        node: NodeType::spec_from_code(bytes[off + 16]),
        age: bytes[off + 17],
        best: PackedMove(u32_at(bytes, off + 18)),
    }
}

/// Whether bytes hold a stored table of `len` slots, and if not, what is
/// wrong first: fewer than eight bytes, another magic number, fewer than
/// twelve bytes, another number of slots, or fewer bytes than the entries
/// need.
pub open spec fn load_check(bytes: Seq<u8>, len: nat) -> Result<(), TableLoadError> {
    if bytes.len() < 8 {
        Err(TableLoadError::Truncated)
    } else if u64_at(bytes, 0) != TABLE_MAGIC {
        Err(TableLoadError::BadMagic)
    } else if bytes.len() < 12 {
        Err(TableLoadError::Truncated)
    } else if u32_at(bytes, 8) != len {
        Err(TableLoadError::BucketCountMismatch)
    } else if bytes.len() < 12 + 22 * len {
        Err(TableLoadError::Truncated)
    } else {
        Ok(())
    }
}

impl TableState {
    /// The table with the entries that the bytes hold.
    pub open spec fn loaded(self, bytes: Seq<u8>) -> TableState {
        TableState {
            buckets: Seq::new(self.buckets.len(), |i: int| entry_at(bytes, 12 + 22 * i)),
            ..self
        }
    }
}

/// Appends the bytes of an entry.
fn push_entry(out: &mut Vec<u8>, e: &TTEntry)
    ensures
        final(out)@ == old(out)@ + entry_bytes(*e),
        final(out)@.len() == old(out)@.len() + 22,
{
    push_u64(out, e.key);
    push_i32(out, e.value);
    push_i32(out, e.depth);
    out.push(u8::from(e.node));
    out.push(e.age);
    push_u32(out, e.best.raw());
    assert(out@ =~= old(out)@ + entry_bytes(*e));
}

/// Reads the entry in the 22 bytes from `off` on.
fn read_entry(bytes: &[u8], off: usize) -> (e: TTEntry)
    requires
        off + 22 <= bytes@.len(),
    ensures
        e == entry_at(bytes@, off as int),
{
    let n = bytes.len();
    TTEntry {
        key: read_u64(bytes, off),
        value: read_i32(bytes, off + 8),
        depth: read_i32(bytes, off + 12),
        node: NodeType::from(bytes[off + 16]),
        age: bytes[off + 17],
        best: PackedMove::from_raw(read_u32(bytes, off + 18)),
    }
}

impl TranspositionTable {
    /// The bytes of the table in its stored form.
    pub fn to_bytes(&self) -> (out: Vec<u8>)
        requires
            self@.buckets.len() <= u32::MAX,
            12 + 22 * self@.buckets.len() <= usize::MAX,
        ensures
            out@ == table_bytes(self@),
    {
        let mut out: Vec<u8> = Vec::new();
        push_u64(&mut out, TABLE_MAGIC);
        push_u32(&mut out, self.buckets.len() as u32);
        let ghost head = out@;
        let n = self.buckets.len();
        let mut i: usize = 0;
        assert(out@ =~= head + entries_bytes(self@.buckets, 0));
        while i < n
            invariant
                i <= n,
                n == self@.buckets.len(),
                out@ == head + entries_bytes(self@.buckets, i as int),
            decreases n - i,
        {
            push_entry(&mut out, &self.buckets[i]);
            i += 1;
            assert(out@ =~= head + entries_bytes(self@.buckets, i as int));
        }
        assert(head =~= spec_u64_to_le_bytes(TABLE_MAGIC) + spec_u32_to_le_bytes(n as u32));
        out
    }

    /// Replaces the entries by those of a stored table with as many slots.
    /// The generation and the counters stay. If the bytes are not such a
    /// table, nothing changes.
    pub fn load_from_bytes(&mut self, bytes: &[u8]) -> (r: Result<(), TableLoadError>)
        ensures
            r == load_check(bytes@, old(self)@.buckets.len()),
            r is Ok ==> final(self)@ == old(self)@.loaded(bytes@),
            r is Err ==> final(self)@ == old(self)@,
    {
        let total = bytes.len();
        let n = self.buckets.len();
        if total < 8 {
            return Err(TableLoadError::Truncated);
        }
        if read_u64(bytes, 0) != TABLE_MAGIC {
            return Err(TableLoadError::BadMagic);
        }
        if total < 12 {
            return Err(TableLoadError::Truncated);
        }
        let count = read_u32(bytes, 8) as usize;
        if count != n {
            return Err(TableLoadError::BucketCountMismatch);
        }
        if (total - 12) / 22 < n {
            return Err(TableLoadError::Truncated);
        }
        let mut i: usize = 0;
        while i < n
            invariant
                i <= n,
                n == self.buckets@.len(),
                n == old(self)@.buckets.len(),
                total == bytes@.len(),
                12 + 22 * n <= total,
                self.age == old(self).age,
                self.probes == old(self).probes,
                self.hits == old(self).hits,
                self.stores == old(self).stores,
                forall|j: int| 0 <= j < i ==> self.buckets@[j] == entry_at(bytes@, 12 + 22 * j),
            decreases n - i,
        {
            let e = read_entry(bytes, 12 + 22 * i);
            self.buckets[i] = e;
            i += 1;
        }
        assert(self@.buckets =~= old(self)@.loaded(bytes@).buckets);
        Ok(())
    }
}

/// The bytes of `n` entries are 22 times `n` long, and the bytes of entry
/// `i` stand at 22 times `i`.
pub proof fn lemma_entries_layout(buckets: Seq<TTEntry>, n: int, i: int)
    requires
        0 <= i < n <= buckets.len(),
    ensures
        entries_bytes(buckets, n).len() == 22 * n,
        entries_bytes(buckets, n).subrange(22 * i, 22 * i + 22) == entry_bytes(buckets[i]),
    decreases n,
{
    lemma_entry_len(buckets[n - 1]);
    lemma_entries_len(buckets, n - 1);
    let init = entries_bytes(buckets, n - 1);
    let last = entry_bytes(buckets[n - 1]);
    if i == n - 1 {
        assert((init + last).subrange(22 * i, 22 * i + 22) =~= last);
    } else {
        lemma_entries_layout(buckets, n - 1, i);
        assert((init + last).subrange(22 * i, 22 * i + 22) =~= init.subrange(22 * i, 22 * i + 22));
    }
}

proof fn lemma_entries_len(buckets: Seq<TTEntry>, n: int)
    requires
        0 <= n <= buckets.len(),
    ensures
        entries_bytes(buckets, n).len() == 22 * n,
    decreases n,
{
    if n > 0 {
        lemma_entries_len(buckets, n - 1);
        lemma_entry_len(buckets[n - 1]);
    }
}

proof fn lemma_entry_len(e: TTEntry)
    ensures
        entry_bytes(e).len() == 22,
{
    lemma_auto_spec_u64_to_from_le_bytes();
    lemma_auto_spec_u32_to_from_le_bytes();
}

/// An entry is read back from its bytes, wherever they stand.
pub proof fn lemma_entry_read_back(bytes: Seq<u8>, off: int, e: TTEntry)
    requires
        0 <= off,
        off + 22 <= bytes.len(),
        bytes.subrange(off, off + 22) == entry_bytes(e),
    ensures
        entry_at(bytes, off) == e,
{
    lemma_auto_spec_u64_to_from_le_bytes();
    lemma_auto_spec_u32_to_from_le_bytes();
    let eb = entry_bytes(e);
    let k = spec_u64_to_le_bytes(e.key);
    let v = i32_bytes(e.value);
    let d = i32_bytes(e.depth);
    let b = spec_u32_to_le_bytes(e.best@);
    assert(bytes.subrange(off, off + 8) =~= eb.subrange(0, 8));
    assert(eb.subrange(0, 8) =~= k);
    assert(bytes.subrange(off + 8, off + 12) =~= eb.subrange(8, 12));
    assert(eb.subrange(8, 12) =~= v);
    assert(bytes.subrange(off + 12, off + 16) =~= eb.subrange(12, 16));
    assert(eb.subrange(12, 16) =~= d);
    assert(bytes.subrange(off + 18, off + 22) =~= eb.subrange(18, 22));
    assert(eb.subrange(18, 22) =~= b);
    assert(bytes[off + 16] == eb[16]);
    assert(bytes[off + 17] == eb[17]);
    assert(eb[16] == e.node.spec_code());
    assert(eb[17] == e.age);
    let value = e.value;
    let depth = e.depth;
    assert((value as u32) as i32 == value) by (bit_vector);
    assert((depth as u32) as i32 == depth) by (bit_vector);
    lemma_node_code_round_trip(e.node);
}

/// A table is loaded back from its bytes: they pass the check for a table
/// of as many slots, and loading them gives the same entries.
pub proof fn law_table_bytes_round_trip(t: TableState, into: TableState)
    requires
        t.buckets.len() <= u32::MAX,
        into.buckets.len() == t.buckets.len(),
    ensures
        load_check(table_bytes(t), into.buckets.len()) == Ok::<(), TableLoadError>(()),
        into.loaded(table_bytes(t)).buckets == t.buckets,
{
    lemma_auto_spec_u64_to_from_le_bytes();
    lemma_auto_spec_u32_to_from_le_bytes();
    let n = t.buckets.len() as int;
    let bytes = table_bytes(t);
    let magic = spec_u64_to_le_bytes(TABLE_MAGIC);
    let count = spec_u32_to_le_bytes(n as u32);
    let body = entries_bytes(t.buckets, n);
    lemma_entries_len(t.buckets, n);
    assert(bytes.subrange(0, 8) =~= magic);
    assert(bytes.subrange(8, 12) =~= count);
    assert forall|i: int| 0 <= i < n implies entry_at(bytes, 12 + 22 * i) == t.buckets[i] by {
        lemma_entries_layout(t.buckets, n, i);
        assert(bytes.subrange(12 + 22 * i, 12 + 22 * i + 22) =~= body.subrange(22 * i, 22 * i + 22));
        lemma_entry_read_back(bytes, 12 + 22 * i, t.buckets[i]);
    }
    assert(into.loaded(bytes).buckets =~= t.buckets);
}

} // verus!
