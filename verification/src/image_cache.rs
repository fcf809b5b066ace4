//! The decoded-image cache: at most [`IMAGE_CACHE_CAPACITY`] images keyed by
//! their source URI, kept in an `lru::LruCache`. A lookup that hits makes
//! the image the most recently used one; storing a new image into a full
//! cache evicts the least recently used one. Each image is carried here by
//! the handle under which the renderer keeps its GPU texture.

use crate::image_fade::{sources_distinct, without_source, ImageFadeDeadlines};
use crate::images::{spec_stale_keys, stale_image_keys, string_views};
use lru::LruCache;
use std::num::NonZeroUsize;
use vstd::prelude::*;

verus! {

/// `lru::LruCache`, opened only through the wrappers below.
#[verifier::external_type_specification]
#[verifier::external_body]
#[verifier::reject_recursive_types(K)]
#[verifier::reject_recursive_types(V)]
#[verifier::reject_recursive_types(S)]
pub struct ExLruCache<K, V, S>(LruCache<K, V, S>);

/// The hasher an `lru::LruCache` uses unless told otherwise.
#[verifier::external_type_specification]
#[verifier::external_body]
pub struct ExLruDefaultHasher(lru::DefaultHasher);

/// Most images kept decoded at once.
pub const IMAGE_CACHE_CAPACITY: usize = 256;

/// The entries of an image LRU, from the least to the most recently used.
pub uninterp spec fn lru_entries(c: LruCache<String, u64>) -> Seq<(Seq<char>, u64)>;

/// The capacity an image LRU was made with.
pub uninterp spec fn lru_capacity(c: LruCache<String, u64>) -> nat;

/// Some entry has key `key`.
pub open spec fn has_key(v: Seq<(Seq<char>, u64)>, key: Seq<char>) -> bool {
    exists|i: int| 0 <= i < v.len() && #[trigger] v[i].0 == key
}

/// The entries after storing `value` under `key` into a cache of `cap`
/// entries: an existing entry of the key is replaced and becomes the most
/// recent; a new key goes in as the most recent, after the least recently
/// used entry is evicted when the cache is full.
pub open spec fn spec_put(v: Seq<(Seq<char>, u64)>, key: Seq<char>, value: u64, cap: nat) -> Seq<
    (Seq<char>, u64),
> {
    if has_key(v, key) {
        without_source(v, key).push((key, value))
    } else if v.len() == cap {
        v.drop_first().push((key, value))
    } else {
        v.push((key, value))
    }
}

/// `LruCache::new` with a capacity of `cap` (made non-zero): an empty cache.
#[verifier::external_body]
fn lru_new(cap: usize) -> (r: LruCache<String, u64>)
    requires
        cap > 0,
    ensures
        lru_entries(r) == Seq::<(Seq<char>, u64)>::empty(),
        lru_capacity(r) == cap,
{
    LruCache::new(NonZeroUsize::new(cap).unwrap())
}

/// `LruCache::put`: replaces the key's entry and moves it to the most recent
/// end, or adds a new most recent entry, first evicting the least recent
/// one when the cache holds its capacity. It does not unwind: it only hashes
/// and compares `String` keys and relinks or allocates list nodes.
#[verifier::external_body]
fn lru_put(c: &mut LruCache<String, u64>, key: String, value: u64)
    ensures
        lru_capacity(*final(c)) == lru_capacity(*old(c)),
        lru_entries(*final(c)) == spec_put(lru_entries(*old(c)), key@, value, lru_capacity(*old(c))),
    no_unwind
{
    c.put(key, value);
}

/// `LruCache::get`: on a hit the value, and the entry moves to the most
/// recent end; on a miss nothing changes. It does not unwind.
#[verifier::external_body]
fn lru_get(c: &mut LruCache<String, u64>, key: &String) -> (r: Option<u64>)
    ensures
        lru_capacity(*final(c)) == lru_capacity(*old(c)),
        match r {
            Some(v) => lru_entries(*old(c)).contains((key@, v)) && lru_entries(*final(c))
                == without_source(lru_entries(*old(c)), key@).push((key@, v)),
            None => !has_key(lru_entries(*old(c)), key@) && lru_entries(*final(c)) == lru_entries(
                *old(c),
            ),
        },
    no_unwind
{
    c.get(key).copied()
}

/// `LruCache::pop`: removes the key's entry, handing back its value. It does
/// not unwind: dropping a `String` key cannot panic.
#[verifier::external_body]
fn lru_pop(c: &mut LruCache<String, u64>, key: &String) -> (r: Option<u64>)
    ensures
        lru_capacity(*final(c)) == lru_capacity(*old(c)),
        lru_entries(*final(c)) == without_source(lru_entries(*old(c)), key@),
        match r {
            Some(v) => lru_entries(*old(c)).contains((key@, v)),
            None => !has_key(lru_entries(*old(c)), key@),
        },
    no_unwind
{
    c.pop(key)
}

/// `LruCache::iter`, keys only: the keys from the most to the least
/// recently used.
#[verifier::external_body]
fn lru_keys(c: &LruCache<String, u64>) -> (r: Vec<String>)
    ensures
        string_views(r@) == lru_entries(*c).reverse().map_values(|e: (Seq<char>, u64)| e.0),
{
    c.iter().map(|(k, _)| k.clone()).collect()
}

proof fn lemma_filter_keeps_distinct(v: Seq<(Seq<char>, u64)>, key: Seq<char>)
    requires
        sources_distinct(v),
    ensures
        sources_distinct(without_source(v, key)),
        !has_key(without_source(v, key), key),
        has_key(v, key) ==> without_source(v, key).len() < v.len(),
        without_source(v, key).len() <= v.len(),
        forall|e: (Seq<char>, u64)| #[trigger] without_source(v, key).contains(e) ==> v.contains(e),
    decreases v.len(),
{
    broadcast use vstd::seq_lib::group_filter_ensures;

    let out = without_source(v, key);
    assert forall|i: int| 0 <= i < out.len() implies out[i].0 != key by {
        v.lemma_filter_pred(crate::image_fade::not_from(key), i);
    }
    assert forall|e: (Seq<char>, u64)| out.contains(e) implies v.contains(e) by {
        v.lemma_filter_contains_rev(crate::image_fade::not_from(key), e);
    }
    if v.len() > 0 {
        let p = v.drop_last();
        let x = v.last();
        assert(v =~= p.push(x));
        assert(sources_distinct(p));
        lemma_filter_keeps_distinct(p, key);
        p.lemma_filter_push(x, crate::image_fade::not_from(key));
        let po = without_source(p, key);
        if x.0 != key {
            assert(out == po.push(x));
            assert forall|a: int, b: int| 0 <= a < b < out.len() implies out[a].0 != out[b].0 by {
                if b == po.len() {
                    assert(without_source(p, key).contains(po[a]));
                    assert(p.contains(po[a]));
                    let w = choose|w: int| 0 <= w < p.len() && p[w] == po[a];
                    assert(v[w] == p[w]);
                    assert(v[v.len() - 1] == x);
                    assert(out[a] == po[a]);
                    assert(out[b] == x);
                }
            }
            if has_key(v, key) {
                let w = choose|w: int| 0 <= w < v.len() && #[trigger] v[w].0 == key;
                assert(p[w].0 == key);
            }
        } else {
            assert(out == po);
            assert(po.len() <= p.len());
        }
    } else {
        assert(out.len() <= 0);
    }
}

/// Storing keeps the keys distinct and the cache within its capacity.
proof fn lemma_put_bounded(v: Seq<(Seq<char>, u64)>, key: Seq<char>, value: u64, cap: nat)
    requires
        sources_distinct(v),
        v.len() <= cap,
        cap > 0,
    ensures
        sources_distinct(spec_put(v, key, value, cap)),
        spec_put(v, key, value, cap).len() <= cap,
{
    if has_key(v, key) {
        lemma_promote_bounded(v, key, value);
    } else {
        let after = spec_put(v, key, value, cap);
        if v.len() == cap {
            assert forall|a: int, b: int| 0 <= a < b < after.len() implies after[a].0 != after[b].0 by {
                if b < after.len() - 1 {
                    assert(after[a] == v[a + 1] && after[b] == v[b + 1]);
                } else {
                    assert(after[a] == v[a + 1]);
                }
            }
        } else {
            assert forall|a: int, b: int| 0 <= a < b < after.len() implies after[a].0 != after[b].0 by {
                assert(after[a] == v[a]);
            }
        }
    }
}

/// Moving an entry of `key` to the most recent end keeps the keys distinct
/// and the length.
proof fn lemma_promote_bounded(v: Seq<(Seq<char>, u64)>, key: Seq<char>, value: u64)
    requires
        sources_distinct(v),
        has_key(v, key),
    ensures
        sources_distinct(without_source(v, key).push((key, value))),
        without_source(v, key).push((key, value)).len() <= v.len(),
{
    lemma_filter_keeps_distinct(v, key);
    let out = without_source(v, key);
    assert forall|a: int| 0 <= a < out.len() implies out[a].0 != key by {
        if out[a].0 == key {
            assert(has_key(out, key));
        }
    }
    let after = out.push((key, value));
    assert forall|a: int, b: int| 0 <= a < b < after.len() implies after[a].0 != after[b].0 by {
        assert(after[a] == out[a]);
    }
}

/// The image cache: decoded images by source URI, in recency order.
pub struct ImageCache {
    lru: LruCache<String, u64>,
}

impl View for ImageCache {
    type V = Seq<(Seq<char>, u64)>;

    closed spec fn view(&self) -> Seq<(Seq<char>, u64)> {
        lru_entries(self.lru)
    }
}

impl ImageCache {
    /// Each source has at most one image, and the cache never holds more than
    /// its capacity.
    #[verifier::type_invariant]
    closed spec fn bounded_and_keyed(self) -> bool {
        &&& lru_capacity(self.lru) == IMAGE_CACHE_CAPACITY
        &&& lru_entries(self.lru).len() <= IMAGE_CACHE_CAPACITY
        &&& sources_distinct(lru_entries(self.lru))
    }

    /// An empty cache of [`IMAGE_CACHE_CAPACITY`] images.
    pub fn new() -> (c: Self)
        ensures
            c@ == Seq::<(Seq<char>, u64)>::empty(),
    {
        ImageCache { lru: lru_new(IMAGE_CACHE_CAPACITY) }
    }

    /// Number of cached images; never more than the capacity.
    pub fn len(&self) -> (n: usize)
        ensures
            n == self@.len(),
            n <= IMAGE_CACHE_CAPACITY,
            sources_distinct(self@),
    {
        proof {
            use_type_invariant(self);
        }
        self.lru_len()
    }

    fn lru_len(&self) -> (n: usize)
        ensures
            n == self@.len(),
    {
        proof {
            use_type_invariant(self);
        }
        let keys = lru_keys(&self.lru);
        proof {
            assert(string_views(keys@).len() == keys@.len());
        }
        keys.len()
    }

    /// Look up the image of `source`. A hit makes it the most recently used
    /// image; a miss changes nothing.
    pub fn get(&mut self, source: &String) -> (r: Option<u64>)
        ensures
            match r {
                Some(v) => old(self)@.contains((source@, v)) && final(self)@ == without_source(
                    old(self)@,
                    source@,
                ).push((source@, v)),
                None => !has_key(old(self)@, source@) && final(self)@ == old(self)@,
            },
    {
        proof {
            use_type_invariant(&*self);
        }
        let ghost before = self@;
        proof {
            if has_key(before, source@) {
                assert forall|v: u64| #[trigger] before.contains((source@, v)) implies sources_distinct(
                    without_source(before, source@).push((source@, v)),
                ) && without_source(before, source@).push((source@, v)).len() <= before.len() by {
                    lemma_promote_bounded(before, source@, v);
                }
            } else {
                assert forall|v: u64| !#[trigger] before.contains((source@, v)) by {
                    if before.contains((source@, v)) {
                        let w = choose|w: int| 0 <= w < before.len() && before[w] == (source@, v);
                        assert(before[w].0 == source@);
                    }
                }
            }
        }
        let r = lru_get(&mut self.lru, source);
        r
    }

    /// Store the image of `source` as the most recently used one. At
    /// capacity, a new source evicts the least recently used image.
    pub fn put(&mut self, source: String, image: u64)
        ensures
            final(self)@ == spec_put(old(self)@, source@, image, IMAGE_CACHE_CAPACITY as nat),
    {
        proof {
            use_type_invariant(&*self);
            lemma_put_bounded(self@, source@, image, IMAGE_CACHE_CAPACITY as nat);
        }
        lru_put(&mut self.lru, source, image);
    }

    /// Drop the image of `source`, handing back its handle.
    pub fn pop(&mut self, source: &String) -> (r: Option<u64>)
        ensures
            final(self)@ == without_source(old(self)@, source@),
            match r {
                Some(v) => old(self)@.contains((source@, v)),
                None => !has_key(old(self)@, source@),
            },
    {
        proof {
            use_type_invariant(&*self);
            lemma_filter_keeps_distinct(self@, source@);
        }
        let r = lru_pop(&mut self.lru, source);
        r
    }

    /// The cached sources, from the most to the least recently used.
    pub fn sources(&self) -> (r: Vec<String>)
        ensures
            string_views(r@) == sources_by_recency(self@),
    {
        lru_keys(&self.lru)
    }
}


/// An entry whose key is not among `keys`.
pub open spec fn not_among(keys: Seq<Seq<char>>) -> spec_fn((Seq<char>, u64)) -> bool {
    |e: (Seq<char>, u64)| !keys.contains(e.0)
}

/// The entries whose keys are not among `keys`, in order.
pub open spec fn without_sources(v: Seq<(Seq<char>, u64)>, keys: Seq<Seq<char>>) -> Seq<(Seq<char>, u64)> {
    v.filter(not_among(keys))
}

/// The cached sources, from the most to the least recently used.
pub open spec fn sources_by_recency(v: Seq<(Seq<char>, u64)>) -> Seq<Seq<char>> {
    v.reverse().map_values(|e: (Seq<char>, u64)| e.0)
}

/// Dropping one more key after a batch is dropping the longer batch.
proof fn lemma_without_one_more(v: Seq<(Seq<char>, u64)>, keys: Seq<Seq<char>>, key: Seq<char>)
    ensures
        without_source(without_sources(v, keys), key) == without_sources(v, keys.push(key)),
    decreases v.len(),
{
    reveal(Seq::filter);
    if v.len() > 0 {
        let p = v.drop_last();
        let x = v.last();
        assert(v =~= p.push(x));
        lemma_without_one_more(p, keys, key);
        p.lemma_filter_push(x, not_among(keys));
        p.lemma_filter_push(x, not_among(keys.push(key)));
        without_sources(p, keys).lemma_filter_push(x, crate::image_fade::not_from(key));
        assert(keys.push(key).contains(x.0) <==> (keys.contains(x.0) || x.0 == key)) by {
            if keys.push(key).contains(x.0) {
                let w = choose|w: int| 0 <= w < keys.len() + 1 && keys.push(key)[w] == x.0;
                if w < keys.len() {
                    assert(keys[w] == x.0);
                }
            }
            if keys.contains(x.0) {
                let w = choose|w: int| 0 <= w < keys.len() && keys[w] == x.0;
                assert(keys.push(key)[w] == x.0);
            }
            if x.0 == key {
                assert(keys.push(key)[keys.len() as int] == x.0);
            }
        }
    } else {
        assert(without_sources(v, keys) =~= v);
        assert(without_sources(v, keys.push(key)) =~= v);
        assert(without_source(v, key) =~= v);
    }
}

/// Dropping no key keeps every entry.
proof fn lemma_without_none(v: Seq<(Seq<char>, u64)>)
    ensures
        without_sources(v, Seq::empty()) == v,
    decreases v.len(),
{
    reveal(Seq::filter);
    if v.len() > 0 {
        let p = v.drop_last();
        assert(v =~= p.push(v.last()));
        lemma_without_none(p);
        p.lemma_filter_push(v.last(), not_among(Seq::empty()));
    } else {
        assert(without_sources(v, Seq::empty()) =~= v);
    }
}

/// A file at `abs_path` changed: drop the cached images that it may back
/// (see [`crate::images::stale_image_keys`]), and their fade deadlines, so
/// that the next frame reads the file again. The sources are examined from
/// the most to the least recently used; the dropped ones come back in that
/// order.
pub fn invalidate_asset_path(cache: &mut ImageCache, fades: &mut ImageFadeDeadlines, abs_path: &str) -> (dropped: Vec<String>)
    ensures
        string_views(dropped@) == spec_stale_keys(abs_path@, sources_by_recency(old(cache)@)),
        final(cache)@ == without_sources(old(cache)@, string_views(dropped@)),
        final(fades)@ == without_sources(old(fades)@, string_views(dropped@)),
{
    let keys = cache.sources();
    let dropped = stale_image_keys(abs_path, &keys);
    let ghost cache0 = cache@;
    let ghost fades0 = fades@;
    let mut i: usize = 0;
    proof {
        assert(string_views(dropped@).take(0) =~= Seq::<Seq<char>>::empty());
        lemma_without_none(cache0);
        lemma_without_none(fades0);
    }
    while i < dropped.len()
        invariant
            i <= dropped@.len(),
            cache@ == without_sources(cache0, string_views(dropped@).take(i as int)),
            fades@ == without_sources(fades0, string_views(dropped@).take(i as int)),
        decreases dropped.len() - i,
    {
        let ghost done = string_views(dropped@).take(i as int);
        proof {
            assert(string_views(dropped@).take(i + 1) =~= done.push(dropped@[i as int]@));
            lemma_without_one_more(cache0, done, dropped@[i as int]@);
            lemma_without_one_more(fades0, done, dropped@[i as int]@);
        }
        let _ = cache.pop(&dropped[i]);
        fades.remove_source(&dropped[i]);
        i = i + 1;
    }
    assert(string_views(dropped@).take(dropped@.len() as int) =~= string_views(dropped@));
    dropped
}


/// The cache's recency rules: a stored image is the most recent one; storing
/// a new source into a full cache evicts exactly the least recently used
/// image and keeps the cache full; storing never grows it past its
/// capacity; a hit makes the image the most recent one and keeps the rest
/// in their order.
pub proof fn law_least_recent_is_evicted(v: Seq<(Seq<char>, u64)>, key: Seq<char>, value: u64)
    requires
        sources_distinct(v),
        v.len() <= IMAGE_CACHE_CAPACITY,
    ensures
        spec_put(v, key, value, IMAGE_CACHE_CAPACITY as nat).last() == (key, value),
        spec_put(v, key, value, IMAGE_CACHE_CAPACITY as nat).len() <= IMAGE_CACHE_CAPACITY,
        v.len() == IMAGE_CACHE_CAPACITY && !has_key(v, key) ==> {
            let after = spec_put(v, key, value, IMAGE_CACHE_CAPACITY as nat);
            &&& after.len() == IMAGE_CACHE_CAPACITY
            &&& !has_key(after, v[0].0)
            &&& forall|i: int| 1 <= i < v.len() ==> after.contains(#[trigger] v[i])
        },
        has_key(v, key) ==> without_source(v, key).len() + 1 == v.len(),
{
    lemma_put_bounded(v, key, value, IMAGE_CACHE_CAPACITY as nat);
    if has_key(v, key) {
        lemma_filter_keeps_distinct(v, key);
        lemma_without_len(v, key);
    }
    if v.len() == IMAGE_CACHE_CAPACITY && !has_key(v, key) {
        let after = spec_put(v, key, value, IMAGE_CACHE_CAPACITY as nat);
        assert forall|i: int| 1 <= i < v.len() implies after.contains(#[trigger] v[i]) by {
            assert(after[i - 1] == v[i]);
        }
        if has_key(after, v[0].0) {
            let w = choose|w: int| 0 <= w < after.len() && #[trigger] after[w].0 == v[0].0;
            if w < after.len() - 1 {
                assert(after[w] == v[w + 1]);
            } else {
                assert(v[0].0 == key);
                assert(has_key(v, key));
            }
        }
    }
}

/// Dropping a key that occurs once removes exactly one entry.
proof fn lemma_without_len(v: Seq<(Seq<char>, u64)>, key: Seq<char>)
    requires
        sources_distinct(v),
        has_key(v, key),
    ensures
        without_source(v, key).len() + 1 == v.len(),
    decreases v.len(),
{
    reveal(Seq::filter);
    let p = v.drop_last();
    let x = v.last();
    assert(v =~= p.push(x));
    p.lemma_filter_push(x, crate::image_fade::not_from(key));
    let w = choose|w: int| 0 <= w < v.len() && #[trigger] v[w].0 == key;
    if x.0 == key {
        assert forall|i: int| 0 <= i < p.len() implies p[i].0 != key by {
            assert(v[i] == p[i]);
        }
        lemma_without_absent(p, key);
    } else {
        assert(p[w].0 == key);
        lemma_without_len(p, key);
    }
}

/// Dropping a key that does not occur keeps every entry.
proof fn lemma_without_absent(v: Seq<(Seq<char>, u64)>, key: Seq<char>)
    requires
        forall|i: int| 0 <= i < v.len() ==> v[i].0 != key,
    ensures
        without_source(v, key) == v,
    decreases v.len(),
{
    reveal(Seq::filter);
    if v.len() > 0 {
        let p = v.drop_last();
        assert(v =~= p.push(v.last()));
        lemma_without_absent(p, key);
        p.lemma_filter_push(v.last(), crate::image_fade::not_from(key));
    } else {
        assert(without_source(v, key) =~= v);
    }
}

} // verus!
