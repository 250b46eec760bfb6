//! Key artwork: the cache of rendered images, the image variant a key shows,
//! and the SVG frame drawn around artwork.
use vstd::prelude::*;
use vstd::string::*;
use vstd::utf8::*;
use crate::foundry::ArtSource;
use crate::text::str_eq;
use base64::Engine;

verus! {

/// How long a cached image stays fresh, in nanoseconds of a monotonic clock (ten minutes).
pub const TTL_NANOS: u64 = 600_000_000_000;

/// How many images a cache holds at most.
pub const CAPACITY: usize = 32;

/// A cache key whose equality the cache can test.
pub trait CacheKey: View + Sized {
    fn same_key(&self, other: &Self) -> (r: bool)
        ensures
            r == (self@ == other@),
    ;
}

/// A cached value that the cache can hand out copies of.
pub trait CacheValue: Sized {
    fn duplicate(&self) -> (r: Self)
        ensures
            r == *self,
    ;
}

/// The artwork of an actor, as drawn with one border colour.
#[derive(Debug, PartialEq, Eq, Hash)]
pub struct ArtKey {
    pub uuid: String,
    pub source: ArtSource,
    pub open_color: String,
}

impl View for ArtKey {
    type V = (Seq<char>, ArtSource, Seq<char>);

    open spec fn view(&self) -> (Seq<char>, ArtSource, Seq<char>) {
        (self.uuid@, self.source, self.open_color@)
    }
}

impl CacheKey for ArtKey {
    fn same_key(&self, other: &Self) -> (r: bool) {
        str_eq(self.uuid.as_str(), other.uuid.as_str()) && self.source == other.source && str_eq(
            self.open_color.as_str(),
            other.open_color.as_str(),
        )
    }
}

/// The three renderings of an actor's artwork and the actor's name.
#[derive(Debug, PartialEq)]
pub struct ArtEntry {
    pub closed: String,
    pub open: String,
    pub offline: String,
    pub name: String,
}

impl CacheValue for ArtEntry {
    fn duplicate(&self) -> (r: Self) {
        ArtEntry {
            closed: self.closed.clone(),
            open: self.open.clone(),
            offline: self.offline.clone(),
            name: self.name.clone(),
        }
    }
}

impl ArtEntry {
    /// The rendering for a sheet that is open or closed, with Foundry reachable or not.
    pub open spec fn variant_spec(&self, open: bool, online: bool) -> Seq<char> {
        if !online {
            self.offline@
        } else if open {
            self.open@
        } else {
            self.closed@
        }
    }

    pub fn variant(&self, open: bool, online: bool) -> (r: &str)
        ensures
            r@ == self.variant_spec(open, online),
    {
        if !online {
            self.offline.as_str()
        } else if open {
            self.open.as_str()
        } else {
            self.closed.as_str()
        }
    }
}

/// The artwork of a condition, as drawn with one accent colour.
#[derive(Debug, PartialEq, Eq, Hash)]
pub struct ConditionKey {
    pub id: String,
    pub accent: String,
}

impl View for ConditionKey {
    type V = (Seq<char>, Seq<char>);

    open spec fn view(&self) -> (Seq<char>, Seq<char>) {
        (self.id@, self.accent@)
    }
}

impl CacheKey for ConditionKey {
    fn same_key(&self, other: &Self) -> (r: bool) {
        str_eq(self.id.as_str(), other.id.as_str()) && str_eq(
            self.accent.as_str(),
            other.accent.as_str(),
        )
    }
}

/// The renderings of a condition icon and the condition's name.
#[derive(Debug, PartialEq)]
pub struct ConditionArt {
    pub name: String,
    pub off: String,
    pub on: String,
    pub mixed: String,
    pub none: String,
    pub offline: String,
}

impl CacheValue for ConditionArt {
    fn duplicate(&self) -> (r: Self) {
        ConditionArt {
            name: self.name.clone(),
            off: self.off.clone(),
            on: self.on.clone(),
            mixed: self.mixed.clone(),
            none: self.none.clone(),
            offline: self.offline.clone(),
        }
    }
}

/// The keys whose artwork is being fetched, so that one fetch runs per key.
pub struct KeySet<K> {
    keys: Vec<K>,
}

impl<K: CacheKey> KeySet<K> {
    pub closed spec fn view(&self) -> Set<K::V> {
        Set::new(|k: K::V| exists|i: int| 0 <= i < self.keys@.len() && self.keys@[i]@ == k)
    }

    /// No key occurs twice.
    pub closed spec fn wf(&self) -> bool {
        forall|a: int, b: int| 0 <= a < b < self.keys@.len() ==> self.keys@[a]@ != self.keys@[b]@
    }

    pub fn new() -> (r: Self)
        ensures
            r.wf(),
            r.view() == Set::<K::V>::empty(),
    {
        let r = KeySet { keys: Vec::new() };
        assert(r.view() =~= Set::<K::V>::empty());
        r
    }

    fn position(&self, key: &K) -> (r: Option<usize>)
        ensures
            r is None ==> !self.view().contains(key@),
            r matches Some(i) ==> i < self.keys@.len() && self.keys@[i as int]@ == key@,
    {
        let mut i: usize = 0;
        while i < self.keys.len()
            invariant
                i <= self.keys@.len(),
                forall|k: int| 0 <= k < i ==> self.keys@[k]@ != key@,
            decreases self.keys@.len() - i,
        {
            if self.keys[i].same_key(key) {
                return Some(i);
            }
            i = i + 1;
        }
        None
    }

    /// Whether `key` is in the set.
    pub fn contains(&self, key: &K) -> (r: bool)
        ensures
            r == self.view().contains(key@),
    {
        self.position(key).is_some()
    }

    /// Adds `key`, saying whether it was absent.
    pub fn insert(&mut self, key: K) -> (r: bool)
        requires
            old(self).wf(),
        ensures
            final(self).wf(),
            r == !old(self).view().contains(key@),
            final(self).view() == old(self).view().insert(key@),
    {
        let ghost k = key@;
        if self.position(&key).is_some() {
            assert(self.view() =~= old(self).view().insert(k));
            false
        } else {
            self.keys.push(key);
            assert forall|a: int, b: int| 0 <= a < b < self.keys@.len() implies self.keys@[a]@ != self.keys@[b]@ by {
                if b == self.keys@.len() - 1 {
                    assert(self.keys@[a] == old(self).keys@[a]);
                    if old(self).keys@[a]@ == k {
                        assert(old(self).view().contains(k));
                    }
                } else {
                    assert(self.keys@[a] == old(self).keys@[a] && self.keys@[b] == old(self).keys@[b]);
                }
            }
            assert(self.view() =~= old(self).view().insert(k)) by {
                assert forall|q: K::V| #[trigger] self.view().contains(q) == old(self).view().insert(k).contains(q) by {
                    if self.view().contains(q) {
                        let i = choose|i: int| 0 <= i < self.keys@.len() && self.keys@[i]@ == q;
                        if i < old(self).keys@.len() {
                            assert(old(self).keys@[i]@ == q);
                        }
                    }
                    if old(self).view().contains(q) {
                        let i = choose|i: int| 0 <= i < old(self).keys@.len() && old(self).keys@[i]@ == q;
                        assert(self.keys@[i]@ == q);
                    }
                    if q == k {
                        assert(self.keys@[old(self).keys@.len() as int]@ == q);
                    }
                }
            }
            true
        }
    }

    /// Removes `key`.
    pub fn remove(&mut self, key: &K)
        requires
            old(self).wf(),
        ensures
            final(self).wf(),
            final(self).view() == old(self).view().remove(key@),
    {
        match self.position(key) {
            Some(i) => {
                let ghost before = self.keys@;
                self.keys.remove(i);
                assert forall|a: int, b: int| 0 <= a < b < self.keys@.len() implies self.keys@[a]@ != self.keys@[b]@ by {
                    let aa = if a < i { a } else { a + 1 };
                    let bb = if b < i { b } else { b + 1 };
                    assert(self.keys@[a] == before[aa] && self.keys@[b] == before[bb]);
                }
                assert(self.view() =~= old(self).view().remove(key@)) by {
                    assert forall|q: K::V| #[trigger] self.view().contains(q) == old(self).view().remove(key@).contains(q) by {
                        if self.view().contains(q) {
                            let j = choose|j: int| 0 <= j < self.keys@.len() && self.keys@[j]@ == q;
                            let jj = if j < i { j } else { j + 1 };
                            assert(before[jj]@ == q);
                            assert(jj != i);
                        }
                        if old(self).view().contains(q) && q != key@ {
                            let j = choose|j: int| 0 <= j < before.len() && before[j]@ == q;
                            assert(j != i);
                            let jj = if j < i { j } else { j - 1 };
                            assert(self.keys@[jj]@ == q);
                        }
                    }
                }
            },
            None => {
                assert(self.view() =~= old(self).view().remove(key@));
            },
        }
    }
}

/// Whether an entry fetched at `fetched` is stale at `now`.
pub open spec fn is_expired(now: u64, fetched: u64) -> bool {
    now > fetched && now - fetched > TTL_NANOS
}

/// No key occurs twice.
pub open spec fn distinct_keys<KV, V>(s: Seq<(KV, V, u64)>) -> bool {
    forall|i: int, j: int| 0 <= i < j < s.len() ==> s[i].0 != s[j].0
}

/// The position of `k` among the entries, or -1.
pub open spec fn key_index<KV, V>(s: Seq<(KV, V, u64)>, k: KV) -> int {
    if exists|i: int| 0 <= i < s.len() && s[i].0 == k {
        choose|i: int| 0 <= i < s.len() && s[i].0 == k
    } else {
        -1
    }
}

/// What a lookup of `k` at `now` returns.
pub open spec fn cache_lookup<KV, V>(s: Seq<(KV, V, u64)>, k: KV, now: u64) -> Option<V> {
    let i = key_index(s, k);
    if i < 0 || is_expired(now, s[i].2) {
        None
    } else {
        Some(s[i].1)
    }
}

/// The entries after a lookup of `k` at `now`: a stale entry is dropped, and a fresh one
/// becomes the most recently used (it moves to the newest end, keeping its stored time).
pub open spec fn cache_after_lookup<KV, V>(s: Seq<(KV, V, u64)>, k: KV, now: u64) -> Seq<
    (KV, V, u64),
> {
    let i = key_index(s, k);
    if i < 0 {
        s
    } else if is_expired(now, s[i].2) {
        s.remove(i)
    } else {
        s.remove(i).push(s[i])
    }
}

/// The entries without `k`.
pub open spec fn cache_without<KV, V>(s: Seq<(KV, V, u64)>, k: KV) -> Seq<(KV, V, u64)> {
    let i = key_index(s, k);
    if i >= 0 {
        s.remove(i)
    } else {
        s
    }
}

/// The entries after storing `v` under `k` at `now`: `k` moves to the newest end,
/// and the least recently used entries go while there are more than the capacity.
pub open spec fn cache_inserted<KV, V>(s: Seq<(KV, V, u64)>, k: KV, v: V, now: u64) -> Seq<
    (KV, V, u64),
> {
    let p = cache_without(s, k).push((k, v, now));
    if p.len() > CAPACITY {
        p.skip(p.len() - CAPACITY)
    } else {
        p
    }
}

pub proof fn lemma_key_index_at<KV, V>(s: Seq<(KV, V, u64)>, k: KV, i: int)
    requires
        distinct_keys(s),
        0 <= i < s.len(),
        s[i].0 == k,
    ensures
        key_index(s, k) == i,
{
    let j = key_index(s, k);
    assert(0 <= j < s.len() && s[j].0 == k);
}

pub proof fn lemma_key_index_absent<KV, V>(s: Seq<(KV, V, u64)>, k: KV)
    requires
        forall|i: int| 0 <= i < s.len() ==> s[i].0 != k,
    ensures
        key_index(s, k) == -1,
{
}

/// The entries without `k` hold no entry under `k`, and keep the others in order.
pub proof fn lemma_without<KV, V>(s: Seq<(KV, V, u64)>, k: KV)
    requires
        distinct_keys(s),
    ensures
        distinct_keys(cache_without(s, k)),
        forall|i: int| 0 <= i < cache_without(s, k).len() ==> cache_without(s, k)[i].0 != k,
        cache_without(s, k).len() == if key_index(s, k) >= 0 {
            s.len() - 1
        } else {
            s.len() as int
        },
{
    let i = key_index(s, k);
    let w = cache_without(s, k);
    if i >= 0 {
        assert(s[i].0 == k);
        assert forall|a: int| 0 <= a < w.len() implies w[a].0 != k by {
            if a < i {
                assert(w[a] == s[a]);
            } else {
                assert(w[a] == s[a + 1]);
            }
        }
        assert forall|a: int, b: int| 0 <= a < b < w.len() implies w[a].0 != w[b].0 by {
            let aa = if a < i { a } else { a + 1 };
            let bb = if b < i { b } else { b + 1 };
            assert(w[a] == s[aa]);
            assert(w[b] == s[bb]);
        }
    } else {
        if exists|j: int| 0 <= j < s.len() && s[j].0 == k {
            let j = choose|j: int| 0 <= j < s.len() && s[j].0 == k;
            assert(key_index(s, k) >= 0);
        }
    }
}

/// Storing keeps the keys distinct and the entries within the capacity, and puts
/// the stored entry at the newest end.
pub proof fn lemma_inserted<KV, V>(s: Seq<(KV, V, u64)>, k: KV, v: V, now: u64)
    requires
        distinct_keys(s),
        s.len() <= CAPACITY,
    ensures
        distinct_keys(cache_inserted(s, k, v, now)),
        cache_inserted(s, k, v, now).len() <= CAPACITY,
        cache_inserted(s, k, v, now).len() > 0,
        cache_inserted(s, k, v, now).last() == (k, v, now),
{
    lemma_without(s, k);
    let w = cache_without(s, k);
    let p = w.push((k, v, now));
    assert(distinct_keys(p)) by {
        assert forall|a: int, b: int| 0 <= a < b < p.len() implies p[a].0 != p[b].0 by {
            if b == p.len() - 1 {
                assert(p[a] == w[a]);
            } else {
                assert(p[a] == w[a]);
                assert(p[b] == w[b]);
            }
        }
    }
    let r = cache_inserted(s, k, v, now);
    if p.len() > CAPACITY {
        let d = p.len() - CAPACITY;
        assert forall|a: int, b: int| 0 <= a < b < r.len() implies r[a].0 != r[b].0 by {
            assert(r[a] == p[a + d]);
            assert(r[b] == p[b + d]);
        }
        assert(r.last() == p.last());
    }
}

/// A lookup keeps the keys distinct and the entries within the capacity. A hit moves
/// its entry, unchanged, to the newest end; a miss leaves no entry under the key.
pub proof fn lemma_after_lookup<KV, V>(s: Seq<(KV, V, u64)>, k: KV, now: u64)
    requires
        distinct_keys(s),
    ensures
        distinct_keys(cache_after_lookup(s, k, now)),
        cache_after_lookup(s, k, now).len() <= s.len(),
        cache_lookup(s, k, now) is Some ==> cache_after_lookup(s, k, now) == cache_without(
            s,
            k,
        ).push(s[key_index(s, k)]) && s[key_index(s, k)].0 == k && cache_after_lookup(
            s,
            k,
            now,
        ).len() == s.len(),
        cache_lookup(s, k, now) is None ==> forall|j: int|
            0 <= j < cache_after_lookup(s, k, now).len() ==> (#[trigger] cache_after_lookup(
                s,
                k,
                now,
            )[j]).0 != k,
{
    lemma_without(s, k);
    let i = key_index(s, k);
    let r = cache_after_lookup(s, k, now);
    let w = cache_without(s, k);
    if i >= 0 {
        assert(s[i].0 == k);
        if !is_expired(now, s[i].2) {
            assert(r == w.push(s[i]));
            assert forall|a: int, b: int| 0 <= a < b < r.len() implies r[a].0 != r[b].0 by {
                assert(r[a] == w[a]);
                if b < w.len() {
                    assert(r[b] == w[b]);
                }
            }
        }
    } else {
        assert forall|j: int| 0 <= j < s.len() implies s[j].0 != k by {
            if s[j].0 == k {
                assert(exists|x: int| 0 <= x < s.len() && s[x].0 == k);
            }
        }
    }
}

/// Looking a key up again gives what the first lookup gave; after a miss the key stays
/// missing at any time until it is stored again.
pub proof fn law_cache_lookup_repeats<KV, V>(s: Seq<(KV, V, u64)>, k: KV, now: u64, later: u64)
    requires
        distinct_keys(s),
    ensures
        cache_lookup(cache_after_lookup(s, k, now), k, now) == cache_lookup(s, k, now),
        cache_lookup(s, k, now) is None ==> cache_lookup(cache_after_lookup(s, k, now), k, later)
            is None,
{
    lemma_after_lookup(s, k, now);
    let r = cache_after_lookup(s, k, now);
    if cache_lookup(s, k, now) is Some {
        lemma_key_index_at(r, k, r.len() - 1);
    } else {
        lemma_key_index_absent(r, k);
    }
}

/// A lookup of one key leaves what every other key gives.
pub proof fn law_cache_lookup_keeps_others<KV, V>(
    s: Seq<(KV, V, u64)>,
    k: KV,
    now: u64,
    other: KV,
    later: u64,
)
    requires
        distinct_keys(s),
        other != k,
    ensures
        cache_lookup(cache_after_lookup(s, k, now), other, later) == cache_lookup(s, other, later),
{
    lemma_after_lookup(s, k, now);
    law_cache_remove_keeps_others(s, k, other, later);
    let r = cache_after_lookup(s, k, now);
    let w = cache_without(s, k);
    lemma_without(s, k);
    if cache_lookup(s, k, now) is Some {
        let io = key_index(w, other);
        if io >= 0 {
            assert(w[io].0 == other);
            lemma_key_index_at(w, other, io);
            assert(r[io] == w[io]);
            lemma_key_index_at(r, other, io);
        } else {
            assert forall|a: int| 0 <= a < r.len() implies r[a].0 != other by {
                if a < w.len() {
                    assert(r[a] == w[a]);
                    if w[a].0 == other {
                        lemma_key_index_at(w, other, a);
                    }
                }
            }
            lemma_key_index_absent(r, other);
        }
    } else {
        let i = key_index(s, k);
        if i >= 0 {
            assert(r == w);
        }
    }
}

/// Removing one key leaves what every other key gives.
pub proof fn law_cache_remove_keeps_others<KV, V>(s: Seq<(KV, V, u64)>, k: KV, other: KV, later: u64)
    requires
        distinct_keys(s),
        other != k,
    ensures
        cache_lookup(cache_without(s, k), other, later) == cache_lookup(s, other, later),
{
    lemma_without(s, k);
    let w = cache_without(s, k);
    let i = key_index(s, k);
    let io = key_index(s, other);
    if i >= 0 {
        assert(s[i].0 == k);
        if io >= 0 {
            assert(s[io].0 == other);
            let iw = if io > i { io - 1 } else { io };
            assert(w[iw] == s[io]);
            lemma_key_index_at(w, other, iw);
        } else {
            assert forall|a: int| 0 <= a < w.len() implies w[a].0 != other by {
                let aa = if a < i { a } else { a + 1 };
                assert(w[a] == s[aa]);
                if s[aa].0 == other {
                    lemma_key_index_at(s, other, aa);
                }
            }
            lemma_key_index_absent(w, other);
        }
    }
}

/// A fresh hit protects its entry: storing a new key right after it, even into a full
/// cache, evicts some other entry, so the key just read is still found as before.
pub proof fn law_cache_lookup_refreshes<KV, V>(
    s: Seq<(KV, V, u64)>,
    k: KV,
    now: u64,
    other: KV,
    v: V,
    stored: u64,
    later: u64,
)
    requires
        distinct_keys(s),
        s.len() <= CAPACITY,
        cache_lookup(s, k, now) is Some,
        other != k,
    ensures
        cache_after_lookup(s, k, now).last().0 == k,
        cache_lookup(cache_inserted(cache_after_lookup(s, k, now), other, v, stored), k, later)
            == cache_lookup(s, k, later),
{
    lemma_after_lookup(s, k, now);
    let r = cache_after_lookup(s, k, now);
    let i = key_index(s, k);
    law_cache_insert_keeps_others(r, other, v, stored, k, later);
    lemma_key_index_at(r, k, r.len() - 1);
    if r.len() == CAPACITY && r[0].0 == k {
        lemma_key_index_at(r, k, 0);
    }
}

/// The least recently used entry goes first: in a full cache, after a fresh hit on the
/// least recently used key, storing a new key evicts the next key instead, keeps the key
/// just read, and finds the new key until it goes stale.
pub proof fn law_cache_lru_eviction<KV, V>(
    s: Seq<(KV, V, u64)>,
    now: u64,
    fresh: KV,
    v: V,
    stored: u64,
    later: u64,
)
    requires
        distinct_keys(s),
        s.len() == CAPACITY,
        cache_lookup(s, s[0].0, now) is Some,
        forall|j: int| 0 <= j < s.len() ==> s[j].0 != fresh,
    ensures
        cache_lookup(cache_inserted(cache_after_lookup(s, s[0].0, now), fresh, v, stored), s[0].0, later)
            == cache_lookup(s, s[0].0, later),
        cache_lookup(cache_inserted(cache_after_lookup(s, s[0].0, now), fresh, v, stored), s[1].0, later)
            is None,
        cache_lookup(cache_inserted(cache_after_lookup(s, s[0].0, now), fresh, v, stored), fresh, later)
            == if is_expired(later, stored) {
            None
        } else {
            Some(v)
        },
        cache_inserted(cache_after_lookup(s, s[0].0, now), fresh, v, stored).len() == CAPACITY,
{
    let k = s[0].0;
    lemma_key_index_at(s, k, 0);
    lemma_after_lookup(s, k, now);
    let s1 = cache_after_lookup(s, k, now);
    assert(cache_without(s, k) == s.remove(0));
    assert(s1[0] == s[1]);
    assert forall|a: int| 0 <= a < s1.len() implies s1[a].0 != fresh by {
        if a < s1.len() - 1 {
            assert(s1[a] == s[a + 1]);
        } else {
            assert(s1[a] == s[0]);
        }
    }
    lemma_key_index_absent(s1, fresh);
    assert(s[1].0 != k) by {
        assert(s[0].0 != s[1].0);
    }
    law_cache_lookup_refreshes(s, k, now, fresh, v, stored, later);
    law_cache_insert_keeps_others(s1, fresh, v, stored, s[1].0, later);
    law_cache_read_after_write(s1, fresh, v, stored, later);
    assert(cache_without(s1, fresh) == s1);
}

/// One operation on a cache's entries.
pub enum CacheOp<KV, V> {
    /// A lookup of a key at a time.
    Lookup(KV, u64),
    /// Storing a value under a key at a time.
    Insert(KV, V, u64),
    /// Removing a key.
    Remove(KV),
    /// Dropping every entry.
    Clear,
}

/// The entries after one operation.
pub open spec fn cache_step<KV, V>(s: Seq<(KV, V, u64)>, op: CacheOp<KV, V>) -> Seq<(KV, V, u64)> {
    match op {
        CacheOp::Lookup(k, now) => cache_after_lookup(s, k, now),
        CacheOp::Insert(k, v, now) => cache_inserted(s, k, v, now),
        CacheOp::Remove(k) => cache_without(s, k),
        CacheOp::Clear => Seq::empty(),
    }
}

/// The entries after a history of operations, first to last.
pub open spec fn cache_run<KV, V>(s: Seq<(KV, V, u64)>, ops: Seq<CacheOp<KV, V>>) -> Seq<
    (KV, V, u64),
>
    decreases ops.len(),
{
    if ops.len() == 0 {
        s
    } else {
        cache_run(cache_step(s, ops[0]), ops.drop_first())
    }
}

/// Whether an operation stores, removes or clears the entry under `k`.
pub open spec fn touches<KV, V>(op: CacheOp<KV, V>, k: KV) -> bool {
    match op {
        CacheOp::Lookup(_, _) => false,
        CacheOp::Insert(j, _, _) => j == k,
        CacheOp::Remove(j) => j == k,
        CacheOp::Clear => true,
    }
}

/// The value stored under `k` and when it was stored, if `k` has an entry.
pub open spec fn entry_of<KV, V>(s: Seq<(KV, V, u64)>, k: KV) -> Option<(V, u64)> {
    let i = key_index(s, k);
    if i >= 0 {
        Some((s[i].1, s[i].2))
    } else {
        None
    }
}

proof fn lemma_entry_from<KV, V>(s: Seq<(KV, V, u64)>, r: Seq<(KV, V, u64)>, k: KV)
    requires
        distinct_keys(s),
        forall|a: int|
            0 <= a < r.len() && (#[trigger] r[a]).0 == k ==> exists|j: int| 0 <= j < s.len() && s[j] == r[a],
    ensures
        entry_of(r, k) is None || entry_of(r, k) == entry_of(s, k),
{
    let i = key_index(r, k);
    if i >= 0 {
        assert(r[i].0 == k);
        let j = choose|j: int| 0 <= j < s.len() && s[j] == r[i];
        lemma_key_index_at(s, k, j);
    }
}

proof fn lemma_step_from<KV, V>(s: Seq<(KV, V, u64)>, op: CacheOp<KV, V>, k: KV)
    requires
        distinct_keys(s),
        s.len() <= CAPACITY,
        !touches(op, k),
    ensures
        distinct_keys(cache_step(s, op)),
        cache_step(s, op).len() <= CAPACITY,
        forall|a: int|
            0 <= a < cache_step(s, op).len() && (#[trigger] cache_step(s, op)[a]).0 == k ==> exists|j: int|
                0 <= j < s.len() && s[j] == cache_step(s, op)[a],
{
    let r = cache_step(s, op);
    match op {
        CacheOp::Lookup(j, now) => {
            lemma_after_lookup(s, j, now);
            lemma_without(s, j);
            let i = key_index(s, j);
            let w = cache_without(s, j);
            assert forall|a: int| 0 <= a < r.len() && (#[trigger] r[a]).0 == k implies exists|x: int|
                0 <= x < s.len() && s[x] == r[a] by {
                if i < 0 {
                    assert(s[a] == r[a]);
                } else {
                    if a < w.len() {
                        assert(r[a] == w[a]);
                        let aa = if a < i { a } else { a + 1 };
                        assert(s[aa] == r[a]);
                    } else {
                        assert(r[a] == s[i]);
                    }
                }
            }
        },
        CacheOp::Insert(j, v, now) => {
            lemma_inserted(s, j, v, now);
            lemma_without(s, j);
            let i = key_index(s, j);
            let w = cache_without(s, j);
            let p = w.push((j, v, now));
            assert forall|a: int| 0 <= a < r.len() && (#[trigger] r[a]).0 == k implies exists|x: int|
                0 <= x < s.len() && s[x] == r[a] by {
                let b = if p.len() > CAPACITY { a + p.len() - CAPACITY } else { a };
                assert(r[a] == p[b]);
                assert(b < w.len());
                assert(p[b] == w[b]);
                if i < 0 {
                    assert(s[b] == r[a]);
                } else {
                    let bb = if b < i { b } else { b + 1 };
                    assert(s[bb] == r[a]);
                }
            }
        },
        CacheOp::Remove(j) => {
            lemma_without(s, j);
            let i = key_index(s, j);
            assert forall|a: int| 0 <= a < r.len() && (#[trigger] r[a]).0 == k implies exists|x: int|
                0 <= x < s.len() && s[x] == r[a] by {
                if i < 0 {
                    assert(s[a] == r[a]);
                } else {
                    let aa = if a < i { a } else { a + 1 };
                    assert(s[aa] == r[a]);
                }
            }
        },
        CacheOp::Clear => {},
    }
}

/// Operations that do not store, remove or clear `k` never change what is stored under
/// `k`: its entry stays exactly as it was, or is gone (evicted, or dropped when a lookup
/// found it stale). The cache stays within its capacity, with no key twice.
pub proof fn law_cache_history<KV, V>(s: Seq<(KV, V, u64)>, ops: Seq<CacheOp<KV, V>>, k: KV)
    requires
        distinct_keys(s),
        s.len() <= CAPACITY,
        forall|i: int| 0 <= i < ops.len() ==> !touches(#[trigger] ops[i], k),
    ensures
        distinct_keys(cache_run(s, ops)),
        cache_run(s, ops).len() <= CAPACITY,
        entry_of(cache_run(s, ops), k) is None || entry_of(cache_run(s, ops), k) == entry_of(s, k),
    decreases ops.len(),
{
    if ops.len() > 0 {
        let s1 = cache_step(s, ops[0]);
        lemma_step_from(s, ops[0], k);
        lemma_entry_from(s, s1, k);
        let rest = ops.drop_first();
        assert forall|i: int| 0 <= i < rest.len() implies !touches(#[trigger] rest[i], k) by {
            assert(rest[i] == ops[i + 1]);
        }
        law_cache_history(s1, rest, k);
    }
}

/// A value stored under `k` at `stored`, followed by operations that do not store, remove
/// or clear `k`, is found exactly while it is fresh and still held; a lookup finds nothing
/// once it has been evicted or dropped.
pub proof fn law_cache_ttl_over_history<KV, V>(
    s: Seq<(KV, V, u64)>,
    k: KV,
    v: V,
    stored: u64,
    ops: Seq<CacheOp<KV, V>>,
    now: u64,
)
    requires
        distinct_keys(s),
        s.len() <= CAPACITY,
        forall|i: int| 0 <= i < ops.len() ==> !touches(#[trigger] ops[i], k),
    ensures
        cache_lookup(cache_run(cache_inserted(s, k, v, stored), ops), k, now) == if key_index(
            cache_run(cache_inserted(s, k, v, stored), ops),
            k,
        ) >= 0 && !is_expired(now, stored) {
            Some(v)
        } else {
            None
        },
{
    lemma_inserted(s, k, v, stored);
    let s0 = cache_inserted(s, k, v, stored);
    lemma_key_index_at(s0, k, s0.len() - 1);
    law_cache_history(s0, ops, k);
}

/// A key with no entry is never found over operations that do not store it.
pub proof fn law_cache_absent_stays<KV, V>(s: Seq<(KV, V, u64)>, ops: Seq<CacheOp<KV, V>>, k: KV, now: u64)
    requires
        distinct_keys(s),
        s.len() <= CAPACITY,
        key_index(s, k) < 0,
        forall|i: int| 0 <= i < ops.len() ==> !touches(#[trigger] ops[i], k),
    ensures
        cache_lookup(cache_run(s, ops), k, now) is None,
{
    law_cache_history(s, ops, k);
}

/// A value is found again after it is stored, until it goes stale.
pub proof fn law_cache_read_after_write<KV, V>(
    s: Seq<(KV, V, u64)>,
    k: KV,
    v: V,
    stored: u64,
    now: u64,
)
    requires
        distinct_keys(s),
        s.len() <= CAPACITY,
    ensures
        cache_lookup(cache_inserted(s, k, v, stored), k, now) == if is_expired(now, stored) {
            None
        } else {
            Some(v)
        },
{
    lemma_inserted(s, k, v, stored);
    let r = cache_inserted(s, k, v, stored);
    lemma_key_index_at(r, k, r.len() - 1);
}

/// A removed key is not found.
pub proof fn law_cache_remove_forgets<KV, V>(s: Seq<(KV, V, u64)>, k: KV, now: u64)
    requires
        distinct_keys(s),
    ensures
        cache_lookup(cache_without(s, k), k, now) is None,
{
    lemma_without(s, k);
    lemma_key_index_absent(cache_without(s, k), k);
}

/// Storing under one key leaves every other key as it was, except that the least recently used
/// entry is evicted when a new key arrives at a full cache.
pub proof fn law_cache_insert_keeps_others<KV, V>(
    s: Seq<(KV, V, u64)>,
    k: KV,
    v: V,
    stored: u64,
    other: KV,
    now: u64,
)
    requires
        distinct_keys(s),
        s.len() <= CAPACITY,
        other != k,
    ensures
        cache_lookup(cache_inserted(s, k, v, stored), other, now) == if key_index(s, k) < 0
            && s.len() == CAPACITY && s[0].0 == other {
            None
        } else {
            cache_lookup(s, other, now)
        },
{
    lemma_without(s, k);
    lemma_inserted(s, k, v, stored);
    let w = cache_without(s, k);
    let p = w.push((k, v, stored));
    let r = cache_inserted(s, k, v, stored);
    let ik = key_index(s, k);
    let io = key_index(s, other);
    let evicted = ik < 0 && s.len() == CAPACITY && s[0].0 == other;
    if io >= 0 {
        assert(s[io].0 == other);
        // position of `other` in w
        let iw = if ik >= 0 && io > ik { io - 1 } else { io };
        if ik >= 0 {
            assert(s[ik].0 == k);
            assert(io != ik);
        }
        assert(w[iw] == s[io]);
        assert(p[iw] == s[io]);
        if p.len() > CAPACITY {
            // one entry evicted: the least recently used one of w
            assert(ik < 0);
            if iw == 0 {
                assert(evicted);
                assert forall|a: int| 0 <= a < r.len() implies r[a].0 != other by {
                    assert(r[a] == p[a + 1]);
                    if a + 1 < w.len() {
                        assert(w[a + 1] == s[a + 1]);
                        assert(s[0].0 == other);
                    }
                }
                lemma_key_index_absent(r, other);
            } else {
                assert(!evicted) by {
                    if s[0].0 == other {
                        lemma_key_index_at(s, other, 0);
                    }
                }
                assert(r[iw - 1] == p[iw]);
                lemma_key_index_at(r, other, iw - 1);
            }
        } else {
            assert(r == p);
            assert(!evicted);
            lemma_key_index_at(r, other, iw);
        }
    } else {
        assert forall|a: int| 0 <= a < s.len() implies s[a].0 != other by {
            if s[a].0 == other {
                lemma_key_index_at(s, other, a);
            }
        }
        assert forall|a: int| 0 <= a < w.len() implies w[a].0 != other by {
            if ik >= 0 {
                if a < ik {
                    assert(w[a] == s[a]);
                } else {
                    assert(w[a] == s[a + 1]);
                }
            } else {
                assert(w[a] == s[a]);
            }
        }
        assert forall|a: int| 0 <= a < r.len() implies r[a].0 != other by {
            if p.len() > CAPACITY {
                assert(r[a] == p[a + 1]);
            } else {
                assert(r[a] == p[a]);
            }
        }
        lemma_key_index_absent(r, other);
    }
}

/// A bounded cache whose entries go stale after a fixed time, evicting the least recently
/// used entry first.
pub struct TtlCache<K, V> {
    entries: Vec<(K, V, u64)>,
}

impl<K: CacheKey, V> TtlCache<K, V> {
    /// The entries, least recently used first, each with the time it was stored.
    pub closed spec fn entries(&self) -> Seq<(K::V, V, u64)> {
        self.entries@.map_values(|e: (K, V, u64)| (e.0@, e.1, e.2))
    }

    /// No key twice and no more entries than the capacity.
    pub open spec fn wf(&self) -> bool {
        distinct_keys(self.entries()) && self.entries().len() <= CAPACITY
    }

    pub fn new() -> (r: Self)
        ensures
            r.wf(),
            r.entries() == Seq::<(K::V, V, u64)>::empty(),
    {
        let r = TtlCache { entries: Vec::new() };
        assert(r.entries() =~= Seq::<(K::V, V, u64)>::empty());
        r
    }

    fn position(&self, key: &K) -> (r: Option<usize>)
        requires
            self.wf(),
        ensures
            r is None ==> key_index(self.entries(), key@) == -1,
            r matches Some(i) ==> i < self.entries().len() && key_index(self.entries(), key@)
                == i,
    {
        let mut i: usize = 0;
        while i < self.entries.len()
            invariant
                self.wf(),
                i <= self.entries@.len(),
                forall|k: int| 0 <= k < i ==> #[trigger] self.entries()[k].0 != key@,
            decreases self.entries@.len() - i,
        {
            if self.entries[i].0.same_key(key) {
                assert(self.entries()[i as int].0 == key@);
                let ghost j = key_index(self.entries(), key@);
                assert(self.entries()[j].0 == key@);
                return Some(i);
            }
            i = i + 1;
        }
        None
    }

    /// The value stored under `key`, unless it has gone stale by `now`; a stale entry is
    /// dropped, a fresh one becomes the most recently used.
    pub fn get(&mut self, key: &K, now: u64) -> (r: Option<V>) where V: CacheValue
        requires
            old(self).wf(),
        ensures
            final(self).wf(),
            r == cache_lookup(old(self).entries(), key@, now),
            final(self).entries() == cache_after_lookup(old(self).entries(), key@, now),
    {
        match self.position(key) {
            None => None,
            Some(i) => {
                let fetched = self.entries[i].2;
                if now > fetched && now - fetched > TTL_NANOS {
                    let ghost before = self.entries();
                    self.entries.remove(i);
                    assert(self.entries() =~= before.remove(i as int));
                    None
                } else {
                    let ghost before = self.entries();
                    let entry = self.entries.remove(i);
                    let v = entry.1.duplicate();
                    self.entries.push(entry);
                    proof {
                        lemma_after_lookup(before, key@, now);
                    }
                    assert(self.entries() =~= before.remove(i as int).push(before[i as int]));
                    Some(v)
                }
            },
        }
    }

    /// Stores `value` under `key` at `now`, evicting the least recently used entries beyond
    /// the capacity.
    pub fn insert(&mut self, key: K, value: V, now: u64)
        requires
            old(self).wf(),
        ensures
            final(self).wf(),
            final(self).entries() == cache_inserted(old(self).entries(), key@, value, now),
    {
        let ghost s = self.entries();
        let ghost k = key@;
        if let Some(i) = self.position(&key) {
            self.entries.remove(i);
            assert(self.entries() =~= s.remove(i as int));
        } else {
            assert(self.entries() =~= s);
        }
        let ghost base = self.entries();
        assert(base == cache_without(s, k));
        self.entries.push((key, value, now));
        let ghost p = base.push((k, value, now));
        assert(self.entries() =~= p);
        assert(distinct_keys(p)) by {
            assert forall|a: int, b: int| 0 <= a < b < p.len() implies p[a].0 != p[b].0 by {
                if b == p.len() - 1 && a < base.len() {
                    let i = key_index(s, k);
                    if i >= 0 {
                        if a < i {
                            assert(p[a] == s[a]);
                        } else {
                            assert(p[a] == s[a + 1]);
                        }
                    } else {
                        assert(p[a] == s[a]);
                        if s[a].0 == k {
                            assert(exists|j: int| 0 <= j < s.len() && s[j].0 == k);
                        }
                    }
                } else if b < base.len() {
                    let i = key_index(s, k);
                    if i >= 0 {
                        let aa = if a < i { a } else { a + 1 };
                        let bb = if b < i { b } else { b + 1 };
                        assert(p[a] == s[aa]);
                        assert(p[b] == s[bb]);
                    } else {
                        assert(p[a] == s[a]);
                        assert(p[b] == s[b]);
                    }
                }
            }
        }
        while self.entries.len() > CAPACITY
            invariant
                p.len() <= CAPACITY + 1,
                distinct_keys(p),
                self.entries@.len() <= p.len(),
                self.entries@.len() >= CAPACITY || self.entries@.len() == p.len(),
                self.entries() == p.skip(p.len() - self.entries@.len()),
            decreases self.entries@.len(),
        {
            let ghost before = self.entries();
            self.entries.remove(0);
            assert(self.entries() =~= before.remove(0));
            assert(self.entries() =~= p.skip(p.len() - self.entries@.len()));
        }
        proof {
            if p.len() > CAPACITY {
                assert(self.entries() =~= p.skip(p.len() - CAPACITY));
            } else {
                assert(self.entries() =~= p);
            }
        }
    }

    /// Drops the entry under `key`, if any.
    pub fn remove(&mut self, key: &K)
        requires
            old(self).wf(),
        ensures
            final(self).wf(),
            final(self).entries() == cache_without(old(self).entries(), key@),
    {
        let ghost s = self.entries();
        if let Some(i) = self.position(key) {
            self.entries.remove(i);
            assert(self.entries() =~= s.remove(i as int));
        }
    }

    /// Drops every entry.
    pub fn clear(&mut self)
        requires
            old(self).wf(),
        ensures
            final(self).wf(),
            final(self).entries() == Seq::<(K::V, V, u64)>::empty(),
    {
        self.entries.clear();
        assert(self.entries() =~= Seq::<(K::V, V, u64)>::empty());
    }

    /// How many entries the cache holds.
    pub fn len(&self) -> (r: usize)
        ensures
            r == self.entries().len(),
    {
        self.entries.len()
    }
}

/// The base64 digit for the six-bit value `v` in the standard (RFC 4648) alphabet.
pub open spec fn base64_digit(v: int) -> char {
    if v < 26 {
        (v + 65) as char
    } else if v < 52 {
        (v + 71) as char
    } else if v < 62 {
        (v - 4) as char
    } else if v == 62 {
        '+'
    } else {
        '/'
    }
}

/// The padded standard base64 text of `b`: each group of three bytes gives four digits,
/// a last group of one or two bytes gives two or three digits and `=` padding.
pub open spec fn base64_bytes(b: Seq<u8>) -> Seq<char>
    decreases b.len(),
{
    if b.len() == 0 {
        Seq::empty()
    } else {
        let x = b[0] as int;
        let y = if b.len() > 1 { b[1] as int } else { 0 };
        let z = if b.len() > 2 { b[2] as int } else { 0 };
        if b.len() == 1 {
            seq![base64_digit(x / 4), base64_digit((x % 4) * 16), '=', '=']
        } else if b.len() == 2 {
            seq![base64_digit(x / 4), base64_digit((x % 4) * 16 + y / 16), base64_digit((y % 16) * 4), '=']
        } else {
            seq![
                base64_digit(x / 4),
                base64_digit((x % 4) * 16 + y / 16),
                base64_digit((y % 16) * 4 + z / 64),
                base64_digit(z % 64),
            ] + base64_bytes(b.skip(3))
        }
    }
}

/// The padded standard base64 text of the UTF-8 bytes of `text`.
pub open spec fn base64_standard(text: Seq<char>) -> Seq<char> {
    base64_bytes(encode_utf8(text))
}

/// `base64::engine::general_purpose::STANDARD.encode`: the padded standard base64 text of
/// the UTF-8 bytes of `text`. The encoder panics only when the encoded length overflows
/// `usize`, which the bound on `text` rules out.
#[verifier::external_body]
pub(crate) fn base64_encode(text: &str) -> (r: String)
    requires
        text@.len() <= usize::MAX / 8,
    ensures
        r@ == base64_standard(text@),
{
    base64::engine::general_purpose::STANDARD.encode(text)
}

/// The prefix of an inline SVG image in base64.
pub open spec fn svg_data_prefix() -> Seq<char> {
    "data:image/svg+xml;base64,"@
}

/// The border drawn in `color`, or nothing.
pub open spec fn svg_border(color: Option<Seq<char>>) -> Seq<char> {
    match color {
        Some(c) => r#"<rect x="5" y="5" width="134" height="134" rx="12" fill="none" stroke=""#@ + c
            + r#"" stroke-width="10"/>"#@,
        None => Seq::empty(),
    }
}

/// An SVG that shows `art` on a key, framed by the border in `color` if there is one.
pub open spec fn svg_frame(art: Seq<char>, color: Option<Seq<char>>) -> Seq<char> {
    r#"<svg xmlns="http://www.w3.org/2000/svg" viewBox="0 0 144 144" width="144" height="144"><image href=""#@
        + art + r#"" x="0" y="0" width="144" height="144" preserveAspectRatio="xMidYMid meet"/>"#@
        + svg_border(color) + "</svg>"@
}

/// Wraps the image `art` in an SVG, with a border in `color` if one is given,
/// as an inline base64 image.
pub fn wrap_svg(art: &str, color: Option<&str>) -> (r: String)
    requires
        art@.len() <= usize::MAX / 64,
        color matches Some(c) ==> c@.len() <= usize::MAX / 64,
    ensures
        r@ == svg_data_prefix() + base64_standard(svg_frame(art@, crate::json::opt_str(color))),
{
    let mut svg = String::from_str(
        r#"<svg xmlns="http://www.w3.org/2000/svg" viewBox="0 0 144 144" width="144" height="144"><image href=""#,
    );
    svg.append(art);
    svg.append(
        r#"" x="0" y="0" width="144" height="144" preserveAspectRatio="xMidYMid meet"/>"#,
    );
    match color {
        Some(c) => {
            svg.append(
                r#"<rect x="5" y="5" width="134" height="134" rx="12" fill="none" stroke=""#,
            );
            svg.append(c);
            svg.append(r#"" stroke-width="10"/>"#);
        },
        None => {},
    }
    svg.append("</svg>");
    proof {
        reveal_strlit(
            r#"<svg xmlns="http://www.w3.org/2000/svg" viewBox="0 0 144 144" width="144" height="144"><image href=""#,
        );
        reveal_strlit(
            r#"" x="0" y="0" width="144" height="144" preserveAspectRatio="xMidYMid meet"/>"#,
        );
        reveal_strlit(
            r#"<rect x="5" y="5" width="134" height="134" rx="12" fill="none" stroke=""#,
        );
        reveal_strlit(r#"" stroke-width="10"/>"#);
        reveal_strlit("</svg>");
        assert(svg@ =~= svg_frame(art@, crate::json::opt_str(color)));
    }
    let encoded = base64_encode(svg.as_str());
    let mut r = String::from_str("data:image/svg+xml;base64,");
    r.append(encoded.as_str());
    r
}

} // verus!
