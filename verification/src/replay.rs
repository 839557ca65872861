//! Guards of the History V1 request handler: each signed request carries a
//! challenge that may be used once per remote, and the page a response may
//! fill is capped.

use std::num::NonZeroUsize;
use vstd::prelude::*;

verus! {

/// An `lru::LruCache` of (remote, challenge) pairs, hidden from the
/// verifier; its contents are named by `lru_keys` and `lru_capacity`.
#[verifier::external_body]
pub struct SeenCache {
    cache: lru::LruCache<([u8; 32], [u8; 32]), ()>,
}

/// A (remote, challenge) pair.
pub type Seen = ([u8; 32], [u8; 32]);

/// The keys held by a cache of (remote, challenge) pairs, from the least to
/// the most recently used.
pub uninterp spec fn lru_order(c: SeenCache) -> Seq<Seen>;

/// The most keys the cache holds; it was made with this capacity.
pub uninterp spec fn lru_capacity(c: SeenCache) -> nat;

/// The keys, least recent first, after `k` is put into a cache holding `s`
/// with capacity `cap`: a held key moves to the most recent end; a new key
/// is added there, and when the cache is full the least recent key goes.
pub open spec fn put_order(s: Seq<Seen>, cap: nat, k: Seen) -> Seq<Seen> {
    if s.contains(k) {
        s.remove(s.index_of(k)).push(k)
    } else if s.len() >= cap {
        s.drop_first().push(k)
    } else {
        s.push(k)
    }
}

/// Calls `lru::LruCache::new` with capacity `cap` (which must not be 0):
/// an empty cache of that capacity.
#[verifier::external_body]
fn lru_new(cap: usize) -> (r: SeenCache)
    requires
        cap > 0,
    ensures
        lru_order(r) == Seq::<Seen>::empty(),
        lru_capacity(r) == cap,
{
    SeenCache { cache: lru::LruCache::new(NonZeroUsize::new(cap).unwrap()) }
}

/// Calls `lru::LruCache::put`: it returns the old value exactly when the key
/// was held. A held key becomes the most recent; a new key is added as the
/// most recent, the least recent key going first when the cache is full.
/// Each key is held once, and at most the capacity is held.
#[verifier::external_body]
fn lru_put(c: &mut SeenCache, k: Seen) -> (r: Option<()>)
    ensures
        r is Some <==> lru_order(*old(c)).contains(k),
        lru_order(*final(c)) == put_order(lru_order(*old(c)), lru_capacity(*old(c)), k),
        lru_capacity(*final(c)) == lru_capacity(*old(c)),
        lru_order(*final(c)).no_duplicates(),
        lru_order(*final(c)).len() <= lru_capacity(*final(c)),
{
    c.cache.put(k, ())
}

/// The challenges a history handler has seen, per remote, up to a bound.
pub struct ReplayGuard {
    seen: SeenCache,
}

impl View for ReplayGuard {
    /// The remembered pairs, least recent first, and how many are kept.
    type V = (Seq<Seen>, nat);

    closed spec fn view(&self) -> (Seq<Seen>, nat) {
        (lru_order(self.seen), lru_capacity(self.seen))
    }
}

/// A request with this remote and challenge is accepted.
pub open spec fn accepts(seen: Seq<Seen>, remote: [u8; 32], challenge: [u8; 32]) -> bool {
    !seen.contains((remote, challenge))
}

/// `k` is remembered and at most `n` pairs were used after it.
pub open spec fn remembered_within(s: Seq<Seen>, k: Seen, n: nat) -> bool {
    exists|i: int| 0 <= i < s.len() && s[i] == k && s.len() - 1 - i <= n
}

impl ReplayGuard {
    /// A guard that remembers at most `capacity` challenges.
    pub fn new(capacity: usize) -> (r: ReplayGuard)
        requires
            capacity > 0,
        ensures
            r@ == (Seq::<Seen>::empty(), capacity as nat),
    {
        ReplayGuard { seen: lru_new(capacity) }
    }

    /// Records a challenge of a remote: `true` the first time, `false` when
    /// it is remembered (a replay). Afterwards it is the most recently used.
    pub fn first_use(&mut self, remote: [u8; 32], challenge: [u8; 32]) -> (r: bool)
        ensures
            r == accepts(old(self)@.0, remote, challenge),
            final(self)@.0 == put_order(old(self)@.0, old(self)@.1, (remote, challenge)),
            final(self)@.1 == old(self)@.1,
            final(self)@.0.no_duplicates(),
            final(self)@.0.len() <= final(self)@.1,
    {
        lru_put(&mut self.seen, (remote, challenge)).is_none()
    }
}

/// The page a history response may fill: the requested size, capped by the
/// room left in a response frame and by the protocol's page limit.
pub fn clamp_page_bytes(requested: u32, response_room: u32, page_limit: u32) -> (r: u32)
    ensures
        r <= requested,
        r <= response_room,
        r <= page_limit,
        r == requested || r == response_room || r == page_limit,
{
    let a = if requested < response_room { requested } else { response_room };
    if a < page_limit {
        a
    } else {
        page_limit
    }
}

/// A pair just used is the most recent one, so it is refused right after.
pub proof fn law_used_pair_is_remembered(s: Seq<Seen>, cap: nat, k: Seen)
    ensures
        remembered_within(put_order(s, cap, k), k, 0),
        !accepts(put_order(s, cap, k), k.0, k.1),
{
    let t = put_order(s, cap, k);
    assert(t[t.len() - 1] == k);
    assert(t.contains(k));
}

/// A remembered pair stays remembered while fewer than the capacity of
/// other pairs are used after it: one more use moves it back at most one
/// place. So a challenge is refused for the next `capacity - 1` requests of
/// any remotes.
pub proof fn law_remembered_until_capacity(s: Seq<Seen>, cap: nat, k: Seen, n: nat, other: Seen)
    requires
        remembered_within(s, k, n),
        n + 1 < cap,
        s.len() <= cap,
    ensures
        remembered_within(put_order(s, cap, other), k, n + 1),
        !accepts(put_order(s, cap, other), k.0, k.1),
{
    let i = choose|i: int| 0 <= i < s.len() && s[i] == k && s.len() - 1 - i <= n;
    let t = put_order(s, cap, other);
    if other == k {
        law_used_pair_is_remembered(s, cap, k);
        let w = t.len() - 1;
        assert(t[w] == k);
    } else if s.contains(other) {
        let j = s.index_of(other);
        assert(0 <= j < s.len() && s[j] == other);
        let r = s.remove(j);
        assert(t == r.push(other));
        if i < j {
            assert(r[i] == s[i]);
            assert(t[i] == k);
        } else {
            assert(i != j);
            assert(r[i - 1] == s[i]);
            assert(t[i - 1] == k);
        }
    } else if s.len() >= cap {
        assert(i > 0);
        assert(t[i - 1] == s[i]);
    } else {
        assert(t[i] == s[i]);
    }
    assert(t.contains(k));
}

} // verus!
