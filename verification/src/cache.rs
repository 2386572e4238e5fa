//! Tiles, tile keys, and the LRU tile cache.
//!
//! A tile holds the computed cells of one fixed-size region of the world,
//! together with the light-cone padding its buffer was simulated with. The
//! cache maps tile keys to tiles, keeps the keys in most-recent-first
//! order, evicts from the back when over capacity, and counts hits and
//! misses.
use vstd::prelude::*;

use crate::automaton::init_chars;

verus! {

/// A cached region of computed cells.
///
/// The buffer holds `tile_size` rows of `simulated_width` cell words,
/// row-major; the first `padding_left` columns of each row are light-cone
/// padding, and the tile's visible columns are the `tile_size` columns
/// from `padding_left` on.
#[derive(Debug)]
pub struct Tile {
    pub cells: Vec<u32>,
    pub simulated_width: u32,
    pub padding_left: u32,
}

/// Two tiles with the same contents.
pub open spec fn tile_eq(a: Tile, b: Tile) -> bool {
    &&& a.cells@ == b.cells@
    &&& a.simulated_width == b.simulated_width
    &&& a.padding_left == b.padding_left
}

/// Cache key: a tile is identified by the rule, a digest of the initial
/// state, and its grid coordinates. Two keys are equal exactly when all
/// four fields match.
#[derive(Debug, Clone, Copy, PartialEq, Eq, Hash, Structural)]
pub struct TileKey {
    pub rule: u8,
    pub initial_state_hash: u64,
    pub tile_x: i32,
    pub tile_y: i32,
}

/// Offset basis of the 64-bit FNV-1a hash.
pub const INITIAL_STATE_HASH_BASIS: u64 = 0xcbf2_9ce4_8422_2325;

/// Prime of the 64-bit FNV-1a hash.
pub const INITIAL_STATE_HASH_PRIME: u64 = 0x0000_0100_0000_01b3;

/// FNV-1a over a character sequence.
pub open spec fn fnv1a_chars(s: Seq<char>) -> u64
    decreases s.len(),
{
    if s.len() == 0 {
        INITIAL_STATE_HASH_BASIS
    } else {
        vstd::wrapping::u64_specs::wrapping_mul(
            fnv1a_chars(s.drop_last()) ^ (s.last() as u64),
            INITIAL_STATE_HASH_PRIME,
        )
    }
}

/// The digest that identifies an initial state in cache keys: 0 for the
/// default single-cell state, and an odd hash of the characters for an
/// explicit string, so the two can never collide.
pub open spec fn spec_initial_state_digest(init: Option<Seq<char>>) -> u64 {
    match init {
        Option::None => 0u64,
        Option::Some(s) => fnv1a_chars(s) | 1,
    }
}

/// The default initial state and an explicit string never share a digest.
pub proof fn lemma_digest_distinguishes_default(s: Seq<char>)
    ensures
        spec_initial_state_digest(Option::None) != spec_initial_state_digest(Option::Some(s)),
{
    let h = fnv1a_chars(s);
    assert((h | 1) != 0) by (bit_vector);
}

impl TileKey {
    /// A stable digest of the optional initial state.
    pub fn hash_initial_state(initial_state: &Option<String>) -> (out: u64)
        ensures
            out == spec_initial_state_digest(init_chars(initial_state)),
    {
        match initial_state {
            Option::None => 0,
            Option::Some(s) => {
                let len_chars: usize = s.as_str().unicode_len();
                let mut h: u64 = INITIAL_STATE_HASH_BASIS;
                let mut i: usize = 0;
                while i < len_chars
                    invariant
                        i <= len_chars,
                        len_chars == s@.len(),
                        h == fnv1a_chars(s@.take(i as int)),
                    decreases len_chars - i,
                {
                    let c = s.as_str().get_char(i);
                    h = (h ^ (c as u64)).wrapping_mul(INITIAL_STATE_HASH_PRIME);
                    proof {
                        assert(s@.take(i + 1).drop_last() =~= s@.take(i as int));
                        assert(s@.take(i + 1).last() == s@[i as int]);
                    }
                    i = i + 1;
                }
                proof {
                    assert(s@.take(len_chars as int) =~= s@);
                }
                h | 1
            },
        }
    }

    /// Build the key of the tile at `(tile_x, tile_y)` for this rule and
    /// initial state.
    pub fn new(rule: u8, initial_state: &Option<String>, tile_x: i32, tile_y: i32) -> (out: Self)
        ensures
            out.rule == rule,
            out.initial_state_hash == spec_initial_state_digest(init_chars(initial_state)),
            out.tile_x == tile_x,
            out.tile_y == tile_y,
    {
        let initial_state_hash = Self::hash_initial_state(initial_state);
        TileKey { rule, initial_state_hash, tile_x, tile_y }
    }
}

/// The index of the first entry with the given key, or -1.
pub open spec fn find_key(es: Seq<(TileKey, Tile)>, k: TileKey) -> int
    decreases es.len(),
{
    if es.len() == 0 {
        -1
    } else if es[0].0 == k {
        0
    } else {
        let r = find_key(es.drop_first(), k);
        if r == -1 {
            -1
        } else {
            r + 1
        }
    }
}

/// What `find_key` finds: either the key occurs nowhere, or the result is
/// the first index holding it.
pub proof fn lemma_find_key(es: Seq<(TileKey, Tile)>, k: TileKey)
    ensures
        (find_key(es, k) == -1) <==> (forall|j: int| 0 <= j < es.len() ==> (#[trigger] es[j]).0 != k),
        find_key(es, k) != -1 ==> {
            &&& 0 <= find_key(es, k) < es.len()
            &&& es[find_key(es, k)].0 == k
            &&& forall|j: int| 0 <= j < find_key(es, k) ==> (#[trigger] es[j]).0 != k
        },
    decreases es.len(),
{
    if es.len() == 0 {
    } else if es[0].0 == k {
    } else {
        lemma_find_key(es.drop_first(), k);
        assert forall|j: int| 1 <= j < es.len() implies es.drop_first()[j - 1] == es[j] by {}
    }
}

/// All entries after removing the first one with the given key.
pub open spec fn lru_remove(es: Seq<(TileKey, Tile)>, k: TileKey) -> Seq<(TileKey, Tile)> {
    if find_key(es, k) >= 0 {
        es.remove(find_key(es, k))
    } else {
        es
    }
}

/// Entries trimmed from the back until there is room for one more under
/// the capacity.
pub open spec fn lru_trim(es: Seq<(TileKey, Tile)>, cap: int) -> Seq<(TileKey, Tile)> {
    if es.len() >= cap {
        es.take(cap - 1)
    } else {
        es
    }
}

/// The entries after an insert: with capacity 0 nothing changes; otherwise
/// any old entry with the key is dropped, the back is trimmed to make
/// room, and the new entry goes to the front.
pub open spec fn lru_insert(es: Seq<(TileKey, Tile)>, cap: int, k: TileKey, t: Tile) -> Seq<(TileKey, Tile)> {
    if cap == 0 {
        es
    } else {
        seq![(k, t)] + lru_trim(lru_remove(es, k), cap)
    }
}

/// The entries after a hit on the given key: its entry moves to the front.
pub open spec fn lru_touch(es: Seq<(TileKey, Tile)>, k: TileKey) -> Seq<(TileKey, Tile)> {
    if find_key(es, k) >= 0 {
        seq![es[find_key(es, k)]] + es.remove(find_key(es, k))
    } else {
        es
    }
}

/// No two entries share a key.
pub open spec fn distinct_keys(es: Seq<(TileKey, Tile)>) -> bool {
    forall|p: int, q: int| 0 <= p < q < es.len() ==> (#[trigger] es[p]).0 != (#[trigger] es[q]).0
}

/// LRU tile cache: entries most-recent-first, bounded by `max_tiles`.
pub struct TileCache {
    /// The bound on the number of cached tiles; treat as read-only.
    pub max_tiles: usize,
    /// Tile edge in cells, shared by every cached tile.
    pub tile_size: u32,
    /// The entries, most recently used first; mutate only through the
    /// methods below.
    pub entries: Vec<(TileKey, Tile)>,
    /// Lookups answered from the cache.
    pub hits: u64,
    /// Lookups that found nothing.
    pub misses: u64,
}

impl TileCache {
    /// The entries, most recently used first.
    pub open spec fn entries_view(&self) -> Seq<(TileKey, Tile)> {
        self.entries@
    }

    /// The bound on the number of cached tiles.
    pub open spec fn capacity(&self) -> int {
        self.max_tiles as int
    }

    /// The number of cached tiles.
    pub open spec fn spec_len(&self) -> int {
        self.entries_view().len() as int
    }

    /// Whether a tile is cached under the given key.
    pub open spec fn contains_key(&self, k: TileKey) -> bool {
        find_key(self.entries_view(), k) >= 0
    }

    /// The tile cached under the given key.
    pub open spec fn spec_tile(&self, k: TileKey) -> Tile {
        self.entries_view()[find_key(self.entries_view(), k)].1
    }

    /// Well-formed: keys are distinct and the capacity is respected.
    pub open spec fn wf(&self) -> bool {
        &&& distinct_keys(self.entries_view())
        &&& self.spec_len() <= self.capacity()
        &&& self.tile_size >= 1
    }

    /// Create an empty cache. A zero tile size falls back to the default.
    pub fn new(max_tiles: usize, tile_size: u32) -> (out: Self)
        ensures
            out.wf(),
            out.entries_view() == Seq::<(TileKey, Tile)>::empty(),
            out.capacity() == max_tiles,
            out.tile_size == if tile_size == 0 { crate::constants::DEFAULT_TILE_SIZE } else { tile_size },
            out.hits == 0,
            out.misses == 0,
    {
        let tile_size = if tile_size == 0 { crate::constants::DEFAULT_TILE_SIZE } else { tile_size };
        let out = TileCache { max_tiles, tile_size, entries: Vec::new(), hits: 0, misses: 0 };
        proof {
            assert(out.entries_view() =~= Seq::<(TileKey, Tile)>::empty());
        }
        out
    }

    /// The number of cached tiles.
    pub fn len(&self) -> (out: usize)
        ensures
            out == self.spec_len(),
    {
        self.entries.len()
    }

    /// Look up a tile. On a hit the key moves to the front of the recency
    /// order, the hit counter steps, and a copy of the tile is returned;
    /// on a miss the miss counter steps.
    pub fn get(&mut self, key: &TileKey) -> (out: Option<Tile>)
        requires
            old(self).wf(),
            old(self).hits < u64::MAX,
            old(self).misses < u64::MAX,
        ensures
            final(self).wf(),
            final(self).capacity() == old(self).capacity(),
            final(self).tile_size == old(self).tile_size,
            old(self).contains_key(*key) ==> {
                &&& out is Some
                &&& tile_eq(out->Some_0, old(self).spec_tile(*key))
                &&& final(self).entries_view() == lru_touch(old(self).entries_view(), *key)
                &&& final(self).hits == old(self).hits + 1
                &&& final(self).misses == old(self).misses
            },
            !old(self).contains_key(*key) ==> {
                &&& out is None
                &&& final(self).entries_view() == old(self).entries_view()
                &&& final(self).hits == old(self).hits
                &&& final(self).misses == old(self).misses + 1
            },
    {
        proof {
            lemma_find_key(old(self).entries_view(), *key);
        }
        let n = self.entries.len();
        let mut i: usize = 0;
        while i < n
            invariant
                self.entries@ == old(self).entries_view(),
                self.max_tiles == old(self).max_tiles,
                self.tile_size == old(self).tile_size,
                self.hits == old(self).hits,
                self.misses == old(self).misses,
                old(self).wf(),
                old(self).hits < u64::MAX,
                old(self).misses < u64::MAX,
                n == self.entries@.len(),
                i <= n,
                forall|j: int| 0 <= j < i ==> (#[trigger] self.entries@[j]).0 != *key,
            decreases n - i,
        {
            if self.entries[i].0 == *key {
                proof {
                    lemma_find_key_at(self.entries@, *key, i as int);
                }
                let entry = self.entries.remove(i);
                let out = tile_copy(&entry.1);
                self.entries.insert(0, entry);
                self.hits = self.hits + 1;
                proof {
                    let es = old(self).entries_view();
                    assert(self.entries@ =~= seq![es[i as int]] + es.remove(i as int));
                    lemma_touch_distinct(es, i as int);
                }
                return Option::Some(out);
            }
            i = i + 1;
        }
        self.misses = self.misses + 1;
        Option::None
    }

    /// Insert a tile under a key. With capacity 0 this is a no-op; else an
    /// entry already under the key is replaced, entries are evicted from
    /// the back until there is room, and the new entry becomes the most
    /// recent. Counters do not change.
    pub fn insert(&mut self, key: TileKey, tile: Tile)
        requires
            old(self).wf(),
        ensures
            final(self).wf(),
            final(self).capacity() == old(self).capacity(),
            final(self).tile_size == old(self).tile_size,
            final(self).hits == old(self).hits,
            final(self).misses == old(self).misses,
            final(self).entries_view() == lru_insert(old(self).entries_view(), old(self).capacity(), key, tile),
    {
        proof {
            lemma_find_key(old(self).entries_view(), key);
        }
        if self.max_tiles == 0 {
            return;
        }
        let ghost es0 = old(self).entries_view();
        let n = self.entries.len();
        let mut i: usize = 0;
        let mut found = false;
        while i < n && !found
            invariant
                es0 == old(self).entries_view(),
                old(self).wf(),
                n == es0.len(),
                !found ==> self.entries@ == es0,
                !found ==> i <= n,
                !found ==> forall|j: int| 0 <= j < i ==> (#[trigger] es0[j]).0 != key,
                found ==> self.entries@ == lru_remove(es0, key),
                self.max_tiles == old(self).max_tiles,
                self.tile_size == old(self).tile_size,
                self.hits == old(self).hits,
                self.misses == old(self).misses,
            decreases n - i + (if found { 0int } else { 1int }),
        {
            if self.entries[i].0 == key {
                proof {
                    lemma_find_key_at(es0, key, i as int);
                }
                let _ = self.entries.remove(i);
                found = true;
            } else {
                i = i + 1;
            }
        }
        proof {
            if !found {
                assert(find_key(es0, key) == -1);
                assert(lru_remove(es0, key) == es0);
            }
            lemma_remove_distinct(es0, key);
        }
        let ghost without = lru_remove(es0, key);
        proof {
            assert(without.take(without.len() as int) =~= without);
        }
        while self.entries.len() >= self.max_tiles
            invariant
                self.entries@.len() <= without.len(),
                self.entries@ == without.take(self.entries@.len() as int),
                without.len() >= self.max_tiles ==> self.entries@.len() >= self.max_tiles - 1,
                without.len() < self.max_tiles ==> self.entries@.len() == without.len(),
                self.max_tiles >= 1,
                self.max_tiles == old(self).max_tiles,
                self.tile_size == old(self).tile_size,
                self.hits == old(self).hits,
                self.misses == old(self).misses,
            decreases self.entries@.len(),
        {
            let _ = self.entries.pop();
            proof {
                assert(self.entries@ =~= without.take(self.entries@.len() as int));
            }
        }
        proof {
            if without.len() >= self.max_tiles {
                assert(self.entries@.len() == self.max_tiles - 1);
            } else {
                assert(self.entries@ =~= without);
            }
        }
        self.entries.insert(0, (key, tile));
        proof {
            let cap = old(self).capacity();
            assert(self.entries@ =~= lru_insert(es0, cap, key, tile));
            lemma_take_distinct(without, key, tile, cap);
        }
    }

    /// Drop every entry and zero the counters.
    pub fn clear(&mut self)
        ensures
            final(self).wf() == (final(self).tile_size >= 1),
            final(self).capacity() == old(self).capacity(),
            final(self).tile_size == old(self).tile_size,
            final(self).entries_view() == Seq::<(TileKey, Tile)>::empty(),
            final(self).hits == 0,
            final(self).misses == 0,
    {
        self.entries.clear();
        self.hits = 0;
        self.misses = 0;
        proof {
            assert(self.entries_view() =~= Seq::<(TileKey, Tile)>::empty());
        }
    }
}

/// `find_key` returns exactly the index the scan stopped at.
proof fn lemma_find_key_at(es: Seq<(TileKey, Tile)>, k: TileKey, i: int)
    requires
        0 <= i < es.len(),
        es[i].0 == k,
        forall|j: int| 0 <= j < i ==> (#[trigger] es[j]).0 != k,
    ensures
        find_key(es, k) == i,
    decreases es.len(),
{
    if i == 0 {
    } else {
        assert forall|j: int| 0 <= j < i - 1 implies (#[trigger] es.drop_first()[j]).0 != k by {
            assert(es.drop_first()[j] == es[j + 1]);
        }
        assert(es.drop_first()[i - 1] == es[i]);
        lemma_find_key_at(es.drop_first(), k, i - 1);
    }
}

/// Moving an entry to the front keeps the keys distinct.
proof fn lemma_touch_distinct(es: Seq<(TileKey, Tile)>, i: int)
    requires
        distinct_keys(es),
        0 <= i < es.len(),
    ensures
        distinct_keys(seq![es[i]] + es.remove(i)),
{
    let out = seq![es[i]] + es.remove(i);
    assert forall|p: int, q: int| 0 <= p < q < out.len() implies (#[trigger] out[p]).0 != (#[trigger] out[q]).0 by {
        lemma_remove_index(es, i, p - 1);
        lemma_remove_index(es, i, q - 1);
    }
}

/// The entry at an index of `es.remove(i)` is an entry of `es` at a
/// related index.
pub proof fn lemma_remove_index(es: Seq<(TileKey, Tile)>, i: int, j: int)
    requires
        0 <= i < es.len(),
    ensures
        0 <= j < i ==> es.remove(i)[j] == es[j],
        i <= j < es.len() - 1 ==> es.remove(i)[j] == es[j + 1],
{
}

/// Removing the entry under a key keeps keys distinct and leaves no entry
/// under that key.
proof fn lemma_remove_distinct(es: Seq<(TileKey, Tile)>, k: TileKey)
    requires
        distinct_keys(es),
    ensures
        distinct_keys(lru_remove(es, k)),
        forall|j: int| 0 <= j < lru_remove(es, k).len() ==> (#[trigger] lru_remove(es, k)[j]).0 != k,
{
    lemma_find_key(es, k);
    let i = find_key(es, k);
    if i >= 0 {
        let out = es.remove(i);
        assert forall|j: int| 0 <= j < out.len() implies (#[trigger] out[j]).0 != k by {
            lemma_remove_index(es, i, j);
        }
        assert forall|p: int, q: int| 0 <= p < q < out.len() implies (#[trigger] out[p]).0 != (#[trigger] out[q]).0 by {
            lemma_remove_index(es, i, p);
            lemma_remove_index(es, i, q);
        }
    }
}

/// Trimming and then fronting a fresh key keeps keys distinct.
proof fn lemma_take_distinct(without: Seq<(TileKey, Tile)>, k: TileKey, t: Tile, cap: int)
    requires
        distinct_keys(without),
        forall|j: int| 0 <= j < without.len() ==> (#[trigger] without[j]).0 != k,
        cap >= 1,
    ensures
        distinct_keys(seq![(k, t)] + lru_trim(without, cap)),
{
    let kept = lru_trim(without, cap);
    let out = seq![(k, t)] + kept;
    assert forall|p: int, q: int| 0 <= p < q < out.len() implies (#[trigger] out[p]).0 != (#[trigger] out[q]).0 by {
        assert(out[q] == kept[q - 1] && kept[q - 1] == without[q - 1]);
        if p > 0 {
            assert(out[p] == without[p - 1]);
        }
    }
}

/// Copy a tile's contents.
pub(crate) fn tile_copy(t: &Tile) -> (out: Tile)
    ensures
        tile_eq(out, *t),
{
    let mut cells: Vec<u32> = Vec::new();
    let n = t.cells.len();
    let mut i: usize = 0;
    while i < n
        invariant
            n == t.cells@.len(),
            i <= n,
            cells@ == t.cells@.take(i as int),
        decreases n - i,
    {
        cells.push(t.cells[i]);
        proof {
            assert(cells@ =~= t.cells@.take(i + 1));
        }
        i = i + 1;
    }
    proof {
        assert(cells@ =~= t.cells@);
    }
    Tile { cells, simulated_width: t.simulated_width, padding_left: t.padding_left }
}

/// Whether some entry carries the given key.
pub open spec fn has_key(es: Seq<(TileKey, Tile)>, k: TileKey) -> bool {
    exists|i: int| 0 <= i < es.len() && (#[trigger] es[i]).0 == k
}

/// The scan and the existential agree.
pub proof fn lemma_has_key(es: Seq<(TileKey, Tile)>, k: TileKey)
    ensures
        has_key(es, k) <==> find_key(es, k) >= 0,
{
    lemma_find_key(es, k);
    if find_key(es, k) >= 0 {
        assert(es[find_key(es, k)].0 == k);
    }
}

/// Every entry after a touch was an entry before it.
pub proof fn lemma_touch_entries(es: Seq<(TileKey, Tile)>, k: TileKey)
    ensures
        forall|j: int| 0 <= j < lru_touch(es, k).len()
            ==> exists|i: int| 0 <= i < es.len() && #[trigger] lru_touch(es, k)[j] == es[i],
{
    lemma_find_key(es, k);
    let f = find_key(es, k);
    let out = lru_touch(es, k);
    if f >= 0 {
        assert forall|j: int| 0 <= j < out.len()
            implies exists|i: int| 0 <= i < es.len() && #[trigger] out[j] == es[i] by {
            if j == 0 {
                assert(0 <= f < es.len() && out[0] == es[f]);
            } else {
                lemma_remove_index(es, f, j - 1);
                if j - 1 < f {
                    assert(0 <= j - 1 < es.len() && out[j] == es[j - 1]);
                } else {
                    assert(0 <= j < es.len() && out[j] == es[j]);
                }
            }
        }
    } else {
        assert forall|j: int| 0 <= j < out.len()
            implies exists|i: int| 0 <= i < es.len() && #[trigger] out[j] == es[i] by {
            assert(out[j] == es[j]);
        }
    }
}

/// A touch moves an entry to the front and keeps the key set.
pub proof fn lemma_touch_preserves_keys(es: Seq<(TileKey, Tile)>, k: TileKey)
    ensures
        forall|k2: TileKey| #[trigger] has_key(lru_touch(es, k), k2) <==> has_key(es, k2),
{
    lemma_find_key(es, k);
    lemma_touch_entries(es, k);
    let f = find_key(es, k);
    let out = lru_touch(es, k);
    assert forall|k2: TileKey| #[trigger] has_key(out, k2) <==> has_key(es, k2) by {
        if has_key(out, k2) {
            let j = choose|j: int| 0 <= j < out.len() && (#[trigger] out[j]).0 == k2;
            let i = choose|i: int| 0 <= i < es.len() && out[j] == #[trigger] es[i];
            assert(es[i].0 == k2);
        }
        if has_key(es, k2) && f >= 0 {
            let i = choose|i: int| 0 <= i < es.len() && (#[trigger] es[i]).0 == k2;
            if i == f {
                assert(out[0] == es[f]);
            } else if i < f {
                lemma_remove_index(es, f, i);
                assert(out[i + 1] == es[i]);
            } else {
                lemma_remove_index(es, f, i - 1);
                assert(out[i] == es[i]);
            }
        }
    }
}

/// Every entry after an insert is the inserted one or an old entry.
pub proof fn lemma_insert_entries(es: Seq<(TileKey, Tile)>, cap: int, k: TileKey, t: Tile)
    requires
        cap >= 0,
    ensures
        forall|j: int| 0 <= j < lru_insert(es, cap, k, t).len()
            ==> #[trigger] lru_insert(es, cap, k, t)[j] == (k, t)
                || exists|i: int| 0 <= i < es.len() && lru_insert(es, cap, k, t)[j] == es[i],
{
    lemma_find_key(es, k);
    let f = find_key(es, k);
    let out = lru_insert(es, cap, k, t);
    if cap == 0 {
        assert forall|j: int| 0 <= j < out.len()
            implies #[trigger] out[j] == (k, t)
                || exists|i: int| 0 <= i < es.len() && out[j] == es[i] by {
            assert(out[j] == es[j]);
        }
    } else {
        let without = lru_remove(es, k);
        assert forall|j: int| 0 <= j < out.len()
            implies #[trigger] out[j] == (k, t)
                || exists|i: int| 0 <= i < es.len() && out[j] == es[i] by {
            if j >= 1 {
                let kept = lru_trim(without, cap);
                assert(out[j] == kept[j - 1]);
                if without.len() >= cap {
                    assert(kept == without.take(cap - 1));
                    assert(0 <= j - 1 < cap - 1);
                    assert(kept[j - 1] == without[j - 1]);
                } else {
                    assert(kept == without);
                }
                assert(kept[j - 1] == without[j - 1]);
                if f >= 0 {
                    lemma_remove_index(es, f, j - 1);
                    if j - 1 < f {
                        assert(0 <= j - 1 < es.len() && out[j] == es[j - 1]);
                    } else {
                        assert(0 <= j < es.len() && out[j] == es[j]);
                    }
                } else {
                    assert(0 <= j - 1 < es.len() && out[j] == es[j - 1]);
                }
            }
        }
    }
}


/// The keys of an entry sequence, in order.
pub open spec fn entry_keys(es: Seq<(TileKey, Tile)>) -> Seq<TileKey> {
    es.map_values(|e: (TileKey, Tile)| e.0)
}

/// Pairwise-distinct keys.
pub open spec fn keys_distinct(keys: Seq<TileKey>) -> bool {
    forall|p: int, q: int| 0 <= p < q < keys.len() ==> keys[p] != keys[q]
}

/// The cache entries after inserting the first `i` keys, in order, into
/// an empty cache of the given capacity, all with the same tile.
pub open spec fn lru_fill(cap: int, keys: Seq<TileKey>, t: Tile, i: int) -> Seq<(TileKey, Tile)>
    decreases i,
{
    if i <= 0 {
        Seq::<(TileKey, Tile)>::empty()
    } else {
        lru_insert(lru_fill(cap, keys, t, i - 1), cap, keys[i - 1], t)
    }
}

/// Filling an empty cache with at most `cap` distinct keys evicts
/// nothing: the entries are exactly the inserted keys, most recent first.
pub proof fn lemma_lru_fill_no_eviction(cap: int, keys: Seq<TileKey>, t: Tile, i: int)
    requires
        cap >= 1,
        0 <= i <= keys.len(),
        i <= cap,
        keys_distinct(keys),
    ensures
        entry_keys(lru_fill(cap, keys, t, i)) =~= keys.take(i).reverse(),
        lru_fill(cap, keys, t, i).len() == i,
    decreases i,
{
    if i > 0 {
        lemma_lru_fill_no_eviction(cap, keys, t, i - 1);
        let es = lru_fill(cap, keys, t, i - 1);
        let k = keys[i - 1];
        assert forall|j: int| 0 <= j < es.len() implies (#[trigger] es[j]).0 != k by {
            assert(entry_keys(es)[j] == es[j].0);
            assert(entry_keys(es)[j] == keys.take(i - 1).reverse()[j]);
            assert(keys.take(i - 1).reverse()[j] == keys[i - 1 - 1 - j]);
        }
        lemma_find_key(es, k);
        if find_key(es, k) >= 0 {
            assert(es[find_key(es, k)].0 == k);
            assert(false);
        }
        assert(lru_remove(es, k) == es);
        assert(es.len() < cap);
        assert(lru_insert(es, cap, k, t) == seq![(k, t)] + es);
        assert(entry_keys(seq![(k, t)] + es) =~= seq![k] + entry_keys(es));
        assert forall|j: int| 0 <= j < i implies (seq![k] + entry_keys(es))[j]
            == #[trigger] keys.take(i).reverse()[j] by {
            assert(keys.take(i).reverse()[j] == keys[i - 1 - j]);
            if j == 0 {
            } else {
                assert(entry_keys(es)[j - 1] == keys.take(i - 1).reverse()[j - 1]);
                assert(keys.take(i - 1).reverse()[j - 1] == keys[i - 1 - j]);
            }
        }
    }
}

/// LRU eviction, fill phase: inserting `cap + 1` distinct keys into an
/// empty cache evicts exactly one entry, the first key inserted; the
/// survivors are the later keys, most recent first.
pub proof fn lemma_lru_capacity_eviction(cap: int, keys: Seq<TileKey>, t: Tile)
    requires
        cap >= 1,
        keys.len() == cap + 1,
        keys_distinct(keys),
    ensures
        lru_fill(cap, keys, t, cap + 1).len() == cap,
        entry_keys(lru_fill(cap, keys, t, cap + 1)) =~= keys.subrange(1, cap + 1).reverse(),
{
    lemma_lru_fill_no_eviction(cap, keys, t, cap);
    let es = lru_fill(cap, keys, t, cap);
    let k = keys[cap];
    assert forall|j: int| 0 <= j < es.len() implies (#[trigger] es[j]).0 != k by {
        assert(entry_keys(es)[j] == es[j].0);
        assert(entry_keys(es)[j] == keys.take(cap).reverse()[j]);
        assert(keys.take(cap).reverse()[j] == keys[cap - 1 - j]);
    }
    lemma_find_key(es, k);
    if find_key(es, k) >= 0 {
        assert(es[find_key(es, k)].0 == k);
        assert(false);
    }
    assert(lru_remove(es, k) == es);
    assert(es.len() == cap);
    let out = lru_fill(cap, keys, t, cap + 1);
    assert(out == seq![(k, t)] + es.take(cap - 1));
    assert forall|j: int| 0 <= j < cap implies entry_keys(out)[j]
        == #[trigger] keys.subrange(1, cap + 1).reverse()[j] by {
        assert(keys.subrange(1, cap + 1).reverse()[j] == keys[cap - j]);
        if j == 0 {
            assert(entry_keys(out)[0] == k);
        } else {
            assert(out[j] == es.take(cap - 1)[j - 1]);
            assert(es.take(cap - 1)[j - 1] == es[j - 1]);
            assert(entry_keys(es)[j - 1] == keys.take(cap).reverse()[j - 1]);
            assert(es[j - 1].0 == keys[cap - j]);
        }
    }
}

/// LRU eviction, recency phase: after the fill above, a hit on the
/// second key inserted protects it, so the next insert of a fresh key
/// evicts the third key inserted.
pub proof fn lemma_lru_touch_protects(cap: int, keys: Seq<TileKey>, t: Tile, fresh: TileKey)
    requires
        cap >= 2,
        keys.len() == cap + 1,
        keys_distinct(keys),
        forall|j: int| 0 <= j < keys.len() ==> #[trigger] keys[j] != fresh,
    ensures
        entry_keys(
            lru_insert(
                lru_touch(lru_fill(cap, keys, t, cap + 1), keys[1]),
                cap,
                fresh,
                t,
            ),
        ) =~= seq![fresh, keys[1]] + keys.subrange(3, cap + 1).reverse(),
{
    lemma_lru_capacity_eviction(cap, keys, t);
    let es = lru_fill(cap, keys, t, cap + 1);
    // keys[1] sits at the back: index cap - 1.
    assert forall|j: int| 0 <= j < cap implies (#[trigger] es[j]).0 == keys[cap - j] by {
        assert(entry_keys(es)[j] == es[j].0);
        assert(entry_keys(es)[j] == keys.subrange(1, cap + 1).reverse()[j]);
        assert(keys.subrange(1, cap + 1).reverse()[j] == keys[cap - j]);
    }
    assert(es[cap - 1].0 == keys[1]);
    assert forall|j: int| 0 <= j < cap - 1 implies (#[trigger] es[j]).0 != keys[1] by {
        assert(es[j].0 == keys[cap - j]);
    }
    lemma_find_key_at(es, keys[1], cap - 1);
    let touched = lru_touch(es, keys[1]);
    assert(touched == seq![es[cap - 1]] + es.remove(cap - 1));
    assert(touched.len() == cap);
    assert forall|j: int| 0 <= j < touched.len() implies (#[trigger] touched[j]).0 != fresh by {
        if j == 0 {
            assert(touched[0].0 == keys[1]);
        } else {
            lemma_remove_index(es, cap - 1, j - 1);
            assert(touched[j] == es[j - 1]);
            assert(es[j - 1].0 == keys[cap - (j - 1)]);
        }
    }
    lemma_find_key(touched, fresh);
    if find_key(touched, fresh) >= 0 {
        assert(touched[find_key(touched, fresh)].0 == fresh);
        assert(false);
    }
    assert(lru_remove(touched, fresh) == touched);
    let out = lru_insert(touched, cap, fresh, t);
    assert(out == seq![(fresh, t)] + touched.take(cap - 1));
    let target = seq![fresh, keys[1]] + keys.subrange(3, cap + 1).reverse();
    assert forall|j: int| 0 <= j < cap implies entry_keys(out)[j] == #[trigger] target[j] by {
        if j == 0 {
            assert(entry_keys(out)[0] == fresh);
        } else if j == 1 {
            assert(out[1] == touched.take(cap - 1)[0]);
            assert(touched.take(cap - 1)[0] == touched[0]);
            assert(touched[0].0 == keys[1]);
        } else {
            assert(out[j] == touched.take(cap - 1)[j - 1]);
            assert(touched.take(cap - 1)[j - 1] == touched[j - 1]);
            lemma_remove_index(es, cap - 1, j - 2);
            assert(touched[j - 1] == es[j - 2]);
            assert(es[j - 2].0 == keys[cap - (j - 2)]);
            assert(target[j] == keys.subrange(3, cap + 1).reverse()[j - 2]);
            assert(keys.subrange(3, cap + 1).reverse()[j - 2] == keys[cap - j + 2]);
        }
    }
    assert(entry_keys(out).len() == cap && target.len() == cap);
}

/// One bookkeeping operation against the cache.
pub enum CacheOp {
    Get(TileKey),
    Insert(TileKey, Tile),
}

/// How many of the operations are lookups.
pub open spec fn ops_gets(ops: Seq<CacheOp>) -> int
    decreases ops.len(),
{
    if ops.len() == 0 {
        0
    } else {
        (match ops[0] {
            CacheOp::Get(_) => 1int,
            CacheOp::Insert(_, _) => 0int,
        }) + ops_gets(ops.drop_first())
    }
}

/// The entries and counters after one operation: exactly what `get` and
/// `insert` promise.
pub open spec fn cache_step(es: Seq<(TileKey, Tile)>, cap: int, hits: int, misses: int, op: CacheOp) -> (Seq<(TileKey, Tile)>, int, int) {
    match op {
        CacheOp::Get(k) => {
            if find_key(es, k) >= 0 {
                (lru_touch(es, k), hits + 1, misses)
            } else {
                (es, hits, misses + 1)
            }
        },
        CacheOp::Insert(k, t) => (lru_insert(es, cap, k, t), hits, misses),
    }
}

/// The entries and counters after a whole sequence of operations.
pub open spec fn cache_run(es: Seq<(TileKey, Tile)>, cap: int, hits: int, misses: int, ops: Seq<CacheOp>) -> (Seq<(TileKey, Tile)>, int, int)
    decreases ops.len(),
{
    if ops.len() == 0 {
        (es, hits, misses)
    } else {
        let stepped = cache_step(es, cap, hits, misses, ops[0]);
        cache_run(stepped.0, cap, stepped.1, stepped.2, ops.drop_first())
    }
}

/// Hit and miss accounting: over any operation sequence, the counters
/// grow together by exactly the number of lookups, and the entry count
/// never exceeds the capacity.
pub proof fn lemma_cache_accounting(es: Seq<(TileKey, Tile)>, cap: int, hits: int, misses: int, ops: Seq<CacheOp>)
    requires
        cap >= 0,
        es.len() <= cap,
    ensures
        cache_run(es, cap, hits, misses, ops).1 + cache_run(es, cap, hits, misses, ops).2
            == hits + misses + ops_gets(ops),
        cache_run(es, cap, hits, misses, ops).0.len() <= cap,
    decreases ops.len(),
{
    if ops.len() > 0 {
        let stepped = cache_step(es, cap, hits, misses, ops[0]);
        match ops[0] {
            CacheOp::Get(k) => {
                lemma_find_key(es, k);
            },
            CacheOp::Insert(k, t) => {
                if cap > 0 {
                    lemma_find_key(es, k);
                    assert(lru_remove(es, k).len() <= es.len());
                    assert(lru_insert(es, cap, k, t).len() <= cap);
                }
            },
        }
        assert(stepped.0.len() <= cap);
        lemma_cache_accounting(stepped.0, cap, stepped.1, stepped.2, ops.drop_first());
    }
}

} // verus!
