use vstd::prelude::*;
use vstd::arithmetic::div_mod::lemma_div_is_ordered;
use vstd::arithmetic::div_mod::lemma_div_pos_is_pos;

verus! {

/// Nanoseconds in one second; timestamps are nanoseconds since an
/// arbitrary epoch, compared with sub-second precision.
pub const NANOS_PER_SEC: i64 = 1_000_000_000;

/// A cached response: the raw reply bytes exactly as the upstream sent
/// them, the answer TTLs they carried, and the time the entry was
/// stored.
#[derive(Clone)]
pub struct StoredEntry {
    pub bytes: Vec<u8>,
    pub ttls: Vec<u32>,
    pub stored_at: i64,
}

/// Mathematical model of a cached response.
pub ghost struct EntryView {
    pub bytes: Seq<u8>,
    pub ttls: Seq<u32>,
    pub stored_at: i64,
}

impl View for StoredEntry {
    type V = EntryView;

    open spec fn view(&self) -> EntryView {
        EntryView { bytes: self.bytes@, ttls: self.ttls@, stored_at: self.stored_at }
    }
}

/// Whether a cached entry has expired at `now`: some answer's whole
/// advertised lifetime has lapsed since the entry was stored.
pub open spec fn spec_expired(ttls: Seq<u32>, stored_at: int, now: int) -> bool {
    exists|i: int| 0 <= i < ttls.len() && now - stored_at > ttls[i] * 1_000_000_000
}

/// Whole seconds left of an answer's lifetime at `now`, measured from
/// the immutable stored TTL; negative where the lifetime has lapsed.
pub open spec fn remaining_secs(ttl: u32, stored_at: int, now: int) -> int {
    (stored_at + ttl * 1_000_000_000 - now) / 1_000_000_000
}

/// The TTL written into a replayed answer: the remaining whole
/// seconds, clamped so a client never sees a TTL below zero or above
/// the stored one.
pub open spec fn rewritten_ttl(ttl: u32, stored_at: int, now: int) -> u32 {
    if remaining_secs(ttl, stored_at, now) < 0 {
        0
    } else if remaining_secs(ttl, stored_at, now) > ttl {
        ttl
    } else {
        remaining_secs(ttl, stored_at, now) as u32
    }
}

/// The rewritten TTLs of a whole answer list.
pub open spec fn rewritten_ttls(ttls: Seq<u32>, stored_at: int, now: int) -> Seq<u32> {
    ttls.map_values(|t: u32| rewritten_ttl(t, stored_at, now))
}

/// Decides whether a cached entry has expired at `now`.
pub fn is_expired(ttls: &Vec<u32>, stored_at: i64, now: i64) -> (r: bool)
    ensures
        r == spec_expired(ttls@, stored_at as int, now as int),
{
    let mut i: usize = 0;
    while i < ttls.len()
        invariant
            i <= ttls.len(),
            forall|j: int| 0 <= j < i ==> !((now as int) - (stored_at as int) > ttls@[j]
                * 1_000_000_000),
        decreases ttls.len() - i,
    {
        let t_ns: i128 = (ttls[i] as i128) * 1_000_000_000;
        let elapsed: i128 = (now as i128) - (stored_at as i128);
        if elapsed > t_ns {
            return true;
        }
        i = i + 1;
    }
    false
}

/// Rewrites every answer TTL of a cached entry for replay at `now`.
pub fn rewrite_ttls(ttls: &Vec<u32>, stored_at: i64, now: i64) -> (r: Vec<u32>)
    ensures
        r@ == rewritten_ttls(ttls@, stored_at as int, now as int),
{
    let ghost goal = rewritten_ttls(ttls@, stored_at as int, now as int);
    let mut out: Vec<u32> = Vec::new();
    let mut i: usize = 0;
    proof {
        assert(out@ =~= goal.take(0));
    }
    while i < ttls.len()
        invariant
            i <= ttls.len(),
            goal == rewritten_ttls(ttls@, stored_at as int, now as int),
            goal.len() == ttls@.len(),
            out@ == goal.take(i as int),
        decreases ttls.len() - i,
    {
        let ttl: u32 = ttls[i];
        let t_ns: i128 = (ttl as i128) * 1_000_000_000;
        let elapsed: i128 = (now as i128) - (stored_at as i128);
        let ghost rem = remaining_secs(ttl, stored_at as int, now as int);
        let new_ttl: u32 = if elapsed < 0 {
            proof {
                lemma_div_is_ordered(
                    ttl * 1_000_000_000,
                    stored_at + ttl * 1_000_000_000 - now,
                    1_000_000_000,
                );
                assert((ttl * 1_000_000_000) / 1_000_000_000 == ttl as int) by (nonlinear_arith);
            }
            ttl
        } else if elapsed > t_ns {
            proof {
                lemma_div_is_ordered(
                    stored_at + ttl * 1_000_000_000 - now,
                    -1,
                    1_000_000_000,
                );
            }
            0
        } else {
            let num: u64 = (t_ns - elapsed) as u64;
            let rem_secs: u64 = num / 1_000_000_000;
            proof {
                lemma_div_pos_is_pos(num as int, 1_000_000_000);
                lemma_div_is_ordered(num as int, ttl * 1_000_000_000, 1_000_000_000);
                assert((ttl * 1_000_000_000) / 1_000_000_000 == ttl as int) by (nonlinear_arith);
                assert(rem_secs == rem);
            }
            rem_secs as u32
        };
        out.push(new_ttl);
        proof {
            assert(new_ttl == rewritten_ttl(ttl, stored_at as int, now as int));
            assert(goal.take(i as int).push(goal[i as int]) =~= goal.take(i as int + 1));
        }
        i = i + 1;
    }
    proof {
        assert(goal.take(ttls@.len() as int) =~= goal);
    }
    out
}

/// Declares lru::LruCache, the bounded LRU map the cache is built on,
/// so that values of it can be held and passed around; what it holds
/// is spoken of only through `lru_seq` and `lru_cap`.
#[verifier::external_type_specification]
#[verifier::external_body]
#[verifier::reject_recursive_types(K)]
#[verifier::reject_recursive_types(V)]
#[verifier::reject_recursive_types(S)]
pub struct ExLruCache<K, V, S>(lru::LruCache<K, V, S>);

/// The LRU store the cache is built on, keyed by the textual cache key.
pub type LruStore = lru::LruCache<String, StoredEntry, std::collections::hash_map::RandomState>;

/// What an LRU store holds, in recency order: the most recently used
/// slot first, the least recently used one last.
pub uninterp spec fn lru_seq(c: LruStore) -> Seq<(Seq<char>, EntryView)>;

/// The capacity an LRU store was created with.
pub uninterp spec fn lru_cap(c: LruStore) -> nat;

/// Index of the first slot holding key `k`, or -1 where no slot does.
pub open spec fn find_key(s: Seq<(Seq<char>, EntryView)>, k: Seq<char>) -> int
    decreases s.len(),
{
    if s.len() == 0 {
        -1
    } else if s[0].0 == k {
        0
    } else if find_key(s.drop_first(), k) < 0 {
        -1
    } else {
        1 + find_key(s.drop_first(), k)
    }
}

/// The store after a lookup of `k`: a hit is promoted to most recent,
/// a miss changes nothing.
pub open spec fn get_step(s: Seq<(Seq<char>, EntryView)>, k: Seq<char>) -> Seq<
    (Seq<char>, EntryView),
> {
    let i = find_key(s, k);
    if i < 0 {
        s
    } else {
        seq![s[i]] + s.remove(i)
    }
}

/// The store after `k` is stored with value `v`: an existing slot is
/// replaced and promoted; otherwise the new slot becomes most recent,
/// and the least recently used slot leaves when the store is full.
pub open spec fn put_step(
    s: Seq<(Seq<char>, EntryView)>,
    cap: nat,
    k: Seq<char>,
    v: EntryView,
) -> Seq<(Seq<char>, EntryView)> {
    let i = find_key(s, k);
    if i >= 0 {
        seq![(k, v)] + s.remove(i)
    } else if s.len() >= cap {
        seq![(k, v)] + s.drop_last()
    } else {
        seq![(k, v)] + s
    }
}

/// The store after `k` is removed; unchanged where `k` is absent.
pub open spec fn pop_step(s: Seq<(Seq<char>, EntryView)>, k: Seq<char>) -> Seq<
    (Seq<char>, EntryView),
> {
    let i = find_key(s, k);
    if i < 0 {
        s
    } else {
        s.remove(i)
    }
}

/// No two slots hold the same key.
pub open spec fn unique_keys(s: Seq<(Seq<char>, EntryView)>) -> bool {
    forall|i: int, j: int| 0 <= i < j < s.len() ==> s[i].0 != s[j].0
}

/// The index `find_key` returns is in range, holds the key, and is the
/// first such index; a negative result means the key is absent.
pub proof fn lemma_find_key_props(s: Seq<(Seq<char>, EntryView)>, k: Seq<char>)
    ensures
        -1 <= find_key(s, k) < s.len(),
        find_key(s, k) >= 0 ==> s[find_key(s, k)].0 == k,
        find_key(s, k) < 0 ==> forall|j: int| 0 <= j < s.len() ==> s[j].0 != k,
        forall|j: int| 0 <= j < find_key(s, k) ==> s[j].0 != k,
    decreases s.len(),
{
    if s.len() == 0 {
    } else if s[0].0 == k {
    } else {
        lemma_find_key_props(s.drop_first(), k);
        assert forall|j: int| 1 <= j < s.len() implies s[j] == s.drop_first()[j - 1] by {}
    }
}

/// A key is present exactly when some slot holds it.
pub proof fn lemma_find_key_present(s: Seq<(Seq<char>, EntryView)>, k: Seq<char>)
    ensures
        find_key(s, k) >= 0 <==> exists|j: int| 0 <= j < s.len() && s[j].0 == k,
{
    lemma_find_key_props(s, k);
    if find_key(s, k) >= 0 {
        assert(s[find_key(s, k)].0 == k);
    }
}

/// Relies on lru::LruCache::new: a fresh store with the given capacity
/// holds nothing.
#[verifier::external_body]
fn lru_new(cap: usize) -> (r: LruStore)
    requires
        cap >= 1,
    ensures
        lru_seq(r) == Seq::<(Seq<char>, EntryView)>::empty(),
        lru_cap(r) == cap,
{
    lru::LruCache::with_hasher(
        std::num::NonZeroUsize::new(cap).unwrap(),
        std::collections::hash_map::RandomState::new(),
    )
}

/// Relies on lru::LruCache::get: returns the value at the key if
/// present and moves that slot to the head of the recency list; a miss
/// changes nothing.
#[verifier::external_body]
fn lru_get(c: &mut LruStore, k: &String) -> (r: Option<StoredEntry>)
    ensures
        lru_cap(*final(c)) == lru_cap(*old(c)),
        lru_seq(*final(c)) == get_step(lru_seq(*old(c)), k@),
        r is Some <==> find_key(lru_seq(*old(c)), k@) >= 0,
        r matches Some(e) ==> e@ == lru_seq(*old(c))[find_key(lru_seq(*old(c)), k@)].1,
{
    c.get(k).cloned()
}

/// Relies on lru::LruCache::put: an existing key's value is replaced
/// and its slot moved to the head; a new key goes in at the head, and
/// when the store is at capacity the tail slot is evicted first.
#[verifier::external_body]
fn lru_put(c: &mut LruStore, k: String, v: StoredEntry)
    ensures
        lru_cap(*final(c)) == lru_cap(*old(c)),
        lru_seq(*final(c)) == put_step(lru_seq(*old(c)), lru_cap(*old(c)), k@, v@),
{
    c.put(k, v);
}

/// Relies on lru::LruCache::pop: removes the slot at the key if
/// present.
#[verifier::external_body]
fn lru_pop(c: &mut LruStore, k: &String)
    ensures
        lru_cap(*final(c)) == lru_cap(*old(c)),
        lru_seq(*final(c)) == pop_step(lru_seq(*old(c)), k@),
{
    c.pop(k);
}

/// Relies on lru::LruCache::len: the number of slots the store holds.
#[verifier::external_body]
fn lru_len(c: &LruStore) -> (r: usize)
    ensures
        r == lru_seq(*c).len(),
{
    c.len()
}

/// Promotion keeps the number of slots and the uniqueness of keys.
pub proof fn lemma_get_step_wf(s: Seq<(Seq<char>, EntryView)>, k: Seq<char>)
    requires
        unique_keys(s),
    ensures
        get_step(s, k).len() == s.len(),
        unique_keys(get_step(s, k)),
{
    lemma_find_key_props(s, k);
    let i = find_key(s, k);
    if i >= 0 {
        s.remove_ensures(i);
        let r = seq![s[i]] + s.remove(i);
        assert forall|a: int, b: int| 0 <= a < b < r.len() implies r[a].0 != r[b].0 by {
            let mb = if b - 1 < i { b - 1 } else { b };
            assert(r[b] == s[mb]);
            if a == 0 {
                assert(r[a] == s[i]);
                assert(mb != i);
            } else {
                let ma = if a - 1 < i { a - 1 } else { a };
                assert(r[a] == s[ma]);
                assert(ma != mb);
            }
        }
    }
}

/// Storing keeps keys unique and never pushes the slot count past the
/// capacity.
pub proof fn lemma_put_step_wf(s: Seq<(Seq<char>, EntryView)>, cap: nat, k: Seq<char>, v: EntryView)
    requires
        unique_keys(s),
        s.len() <= cap,
        cap >= 1,
    ensures
        put_step(s, cap, k, v).len() <= cap,
        unique_keys(put_step(s, cap, k, v)),
        find_key(put_step(s, cap, k, v), k) == 0,
{
    lemma_find_key_props(s, k);
    let i = find_key(s, k);
    let r = put_step(s, cap, k, v);
    assert(r[0] == (k, v));
    if i >= 0 {
        s.remove_ensures(i);
        assert forall|a: int, b: int| 0 <= a < b < r.len() implies r[a].0 != r[b].0 by {
            let mb = if b - 1 < i { b - 1 } else { b };
            assert(r[b] == s[mb]);
            if a == 0 {
                assert(s[mb].0 != k);
            } else {
                let ma = if a - 1 < i { a - 1 } else { a };
                assert(r[a] == s[ma]);
                assert(ma != mb);
            }
        }
    } else if s.len() >= cap {
        assert forall|a: int, b: int| 0 <= a < b < r.len() implies r[a].0 != r[b].0 by {
            assert(r[b] == s[b - 1]);
            if a == 0 {
                assert(s[b - 1].0 != k);
            } else {
                assert(r[a] == s[a - 1]);
            }
        }
    } else {
        assert forall|a: int, b: int| 0 <= a < b < r.len() implies r[a].0 != r[b].0 by {
            assert(r[b] == s[b - 1]);
            if a == 0 {
                assert(s[b - 1].0 != k);
            } else {
                assert(r[a] == s[a - 1]);
            }
        }
    }
}

/// Eviction keeps keys unique, never grows the store, and removes the
/// key.
pub proof fn lemma_pop_step_wf(s: Seq<(Seq<char>, EntryView)>, k: Seq<char>)
    requires
        unique_keys(s),
    ensures
        pop_step(s, k).len() <= s.len(),
        unique_keys(pop_step(s, k)),
        find_key(pop_step(s, k), k) < 0,
{
    lemma_find_key_props(s, k);
    let i = find_key(s, k);
    let r = pop_step(s, k);
    if i >= 0 {
        s.remove_ensures(i);
        assert forall|a: int, b: int| 0 <= a < b < r.len() implies r[a].0 != r[b].0 by {
            let ma = if a < i { a } else { a + 1 };
            let mb = if b < i { b } else { b + 1 };
            assert(r[a] == s[ma]);
            assert(r[b] == s[mb]);
            assert(ma != mb);
        }
        lemma_find_key_present(r, k);
        if find_key(r, k) >= 0 {
            let j = choose|j: int| 0 <= j < r.len() && r[j].0 == k;
            let mj = if j < i { j } else { j + 1 };
            assert(r[j] == s[mj]);
            assert(mj != i);
            assert(false);
        }
    } else {
        lemma_find_key_present(r, k);
    }
}

/// A bounded key-to-entry store over an LRU recency list: lookups
/// promote, stores evict the least recently used slot on overflow,
/// expiry-driven eviction is explicit. Size never exceeds the
/// capacity fixed at construction, and every slot's key is unique.
pub struct ResponseCache {
    inner: LruStore,
}

impl ResponseCache {
    /// The slots of the cache, most recently used first.
    pub closed spec fn model(self) -> Seq<(Seq<char>, EntryView)> {
        lru_seq(self.inner)
    }

    /// The fixed capacity.
    pub closed spec fn cap(self) -> nat {
        lru_cap(self.inner)
    }

    /// Invariant: capacity at least one, never more slots than the
    /// capacity, no key twice.
    pub open spec fn wf(self) -> bool {
        &&& self.cap() >= 1
        &&& self.model().len() <= self.cap()
        &&& unique_keys(self.model())
    }

    /// An empty cache with the given capacity.
    pub fn new(capacity: usize) -> (r: Self)
        requires
            capacity >= 1,
        ensures
            r.wf(),
            r.cap() == capacity,
            r.model() == Seq::<(Seq<char>, EntryView)>::empty(),
    {
        ResponseCache { inner: lru_new(capacity) }
    }

    /// Returns a copy of the entry stored at `key` if present,
    /// promoting it to most recently used; `None` otherwise.
    pub fn lookup(&mut self, key: &String) -> (r: Option<StoredEntry>)
        requires
            old(self).wf(),
        ensures
            final(self).wf(),
            final(self).cap() == old(self).cap(),
            final(self).model() == get_step(old(self).model(), key@),
            r is Some <==> find_key(old(self).model(), key@) >= 0,
            r matches Some(e) ==> e@ == old(self).model()[find_key(old(self).model(), key@)].1,
    {
        proof {
            lemma_get_step_wf(old(self).model(), key@);
        }
        lru_get(&mut self.inner, key)
    }

    /// Inserts or replaces the entry at `key`, evicting the least
    /// recently used slot when the cache would overflow.
    pub fn store(&mut self, key: String, entry: StoredEntry)
        requires
            old(self).wf(),
        ensures
            final(self).wf(),
            final(self).cap() == old(self).cap(),
            final(self).model() == put_step(old(self).model(), old(self).cap(), key@, entry@),
    {
        proof {
            lemma_put_step_wf(old(self).model(), old(self).cap(), key@, entry@);
        }
        lru_put(&mut self.inner, key, entry)
    }

    /// Removes the entry at `key` if present; a no-op otherwise.
    pub fn evict(&mut self, key: &String)
        requires
            old(self).wf(),
        ensures
            final(self).wf(),
            final(self).cap() == old(self).cap(),
            final(self).model() == pop_step(old(self).model(), key@),
    {
        proof {
            lemma_pop_step_wf(old(self).model(), key@);
        }
        lru_pop(&mut self.inner, key)
    }

    /// How many entries the cache holds.
    pub fn len(&self) -> (r: usize)
        ensures
            r == self.model().len(),
    {
        lru_len(&self.inner)
    }
}

/// Law: filling a cache of capacity two with two keys, then reading
/// the first (promoting it), then storing a third key evicts the
/// second key, not the first.
pub proof fn lemma_lru_eviction(
    k1: Seq<char>,
    k2: Seq<char>,
    k3: Seq<char>,
    v1: EntryView,
    v2: EntryView,
    v3: EntryView,
)
    requires
        k1 != k2,
        k1 != k3,
        k2 != k3,
    ensures
        ({
            let s0 = Seq::<(Seq<char>, EntryView)>::empty();
            let s1 = put_step(s0, 2, k1, v1);
            let s2 = put_step(s1, 2, k2, v2);
            let s3 = get_step(s2, k1);
            let s4 = put_step(s3, 2, k3, v3);
            &&& find_key(s4, k2) < 0
            &&& find_key(s4, k1) >= 0
            &&& find_key(s4, k3) >= 0
        }),
{
    let s0 = Seq::<(Seq<char>, EntryView)>::empty();
    let s1 = put_step(s0, 2, k1, v1);
    let s2 = put_step(s1, 2, k2, v2);
    let s3 = get_step(s2, k1);
    let s4 = put_step(s3, 2, k3, v3);
    assert(find_key(s0, k1) < 0);
    assert(find_key(s0, k2) < 0);
    assert(find_key(s0, k3) < 0);
    assert(s1 =~= seq![(k1, v1)]);
    assert(s1.drop_first() =~= s0);
    assert(find_key(s1, k2) < 0) by {
        assert(s1[0].0 == k1);
        assert(find_key(s1.drop_first(), k2) == find_key(s0, k2));
    }
    assert(find_key(s1, k1) == 0) by {
        assert(s1[0].0 == k1);
    }
    assert(s2 =~= seq![(k2, v2), (k1, v1)]);
    assert(s2.drop_first() =~= s1);
    assert(find_key(s2, k1) == 1) by {
        assert(s2[0].0 == k2);
        assert(find_key(s2.drop_first(), k1) == find_key(s1, k1));
    }
    assert(s2.remove(1) =~= seq![(k2, v2)]);
    assert(s3 =~= seq![(k1, v1), (k2, v2)]);
    let t2 = seq![(k2, v2)];
    assert(t2.drop_first() =~= s0);
    assert(find_key(t2, k3) < 0) by {
        assert(t2[0].0 == k2);
        assert(find_key(t2.drop_first(), k3) == find_key(s0, k3));
    }
    assert(find_key(t2, k1) < 0) by {
        assert(t2[0].0 == k2);
        assert(find_key(t2.drop_first(), k1) == find_key(s0, k1));
    }
    assert(s3.drop_first() =~= t2);
    assert(find_key(s3, k3) < 0) by {
        assert(s3[0].0 == k1);
        assert(find_key(s3.drop_first(), k3) == find_key(t2, k3));
    }
    assert(s3.drop_last() =~= seq![(k1, v1)]);
    assert(s4 =~= seq![(k3, v3), (k1, v1)]);
    assert(s4.drop_first() =~= s1);
    assert(find_key(s4, k2) < 0) by {
        assert(s4[0].0 == k3);
        assert(find_key(s4.drop_first(), k2) == find_key(s1, k2));
    }
    assert(find_key(s4, k1) == 1) by {
        assert(s4[0].0 == k3);
        assert(find_key(s4.drop_first(), k1) == find_key(s1, k1));
    }
    assert(find_key(s4, k3) == 0) by {
        assert(s4[0].0 == k3);
    }
}

/// A replayed TTL never exceeds the stored one: a client never sees an
/// answer's lifetime grow.
pub proof fn lemma_rewrite_no_increase(ttl: u32, stored_at: int, now: int)
    ensures
        rewritten_ttl(ttl, stored_at, now) <= ttl,
{
}

/// Replayed TTLs fall as time passes.
pub proof fn lemma_rewrite_monotone(ttl: u32, stored_at: int, n1: int, n2: int)
    requires
        n1 <= n2,
    ensures
        rewritten_ttl(ttl, stored_at, n2) <= rewritten_ttl(ttl, stored_at, n1),
{
    lemma_div_is_ordered(
        stored_at + ttl * 1_000_000_000 - n2,
        stored_at + ttl * 1_000_000_000 - n1,
        1_000_000_000,
    );
}

/// While an entry is fresh and the clock has not run backwards, the
/// replayed TTL is exactly the whole seconds left of the answer's
/// advertised lifetime.
pub proof fn lemma_fresh_rewrite_exact(ttl: u32, stored_at: int, now: int)
    requires
        stored_at <= now,
        now - stored_at <= ttl * 1_000_000_000,
    ensures
        rewritten_ttl(ttl, stored_at, now) == remaining_secs(ttl, stored_at, now),
        0 <= remaining_secs(ttl, stored_at, now) <= ttl,
{
    lemma_div_pos_is_pos(stored_at + ttl * 1_000_000_000 - now, 1_000_000_000);
    lemma_div_is_ordered(
        stored_at + ttl * 1_000_000_000 - now,
        ttl * 1_000_000_000,
        1_000_000_000,
    );
    assert((ttl * 1_000_000_000) / 1_000_000_000 == ttl as int) by (nonlinear_arith);
}

} // verus!
