//! Per-node layer textures for composite-promoted subtrees.
//!
//! The renderer rasterizes each promoted subtree (a CSS-animated subtree, or
//! a motion-bound subtree) into a texture of its own, keyed by the node's
//! slotmap key, and blits it every frame with the live animation applied.
//! Beside each texture it keeps the hash of the primitive batch that
//! produced it: a paint that emits a batch with the same hash keeps the
//! texture instead of rasterizing again. Textures that leave the cache are
//! handed back to the caller, which returns them to the renderer's pool.

use std::collections::HashMap;
use vstd::std_specs::iter::IteratorSpec;
use vstd::prelude::*;

verus! {

broadcast use {vstd::std_specs::hash::group_hash_axioms, vstd::seq_lib::group_seq_properties};

/// A cached texture with the allocated size it was rasterized at.
pub type LayerEntry<T> = (T, (u32, u32));

/// Textures and batch hashes of one family of promoted subtrees.
pub struct LayerTextureCache<T> {
    textures: HashMap<u64, LayerEntry<T>>,
    hashes: HashMap<u64, u64>,
}

/// Mathematical model of a [`LayerTextureCache`].
pub ghost struct LayerCacheView<T> {
    pub textures: Map<u64, LayerEntry<T>>,
    pub hashes: Map<u64, u64>,
}

impl<T> View for LayerTextureCache<T> {
    type V = LayerCacheView<T>;

    closed spec fn view(&self) -> LayerCacheView<T> {
        LayerCacheView { textures: self.textures@, hashes: self.hashes@ }
    }
}

/// Every texture has a hash and every hash a texture.
pub open spec fn layer_cache_wf<T>(v: LayerCacheView<T>) -> bool {
    v.hashes.dom() == v.textures.dom()
}

/// A node must be (re)rasterized unless it has a texture that was produced
/// by a batch with this very hash.
pub open spec fn spec_needs_bake<T>(v: LayerCacheView<T>, key: u64, hash: u64) -> bool {
    !(v.textures.contains_key(key) && v.hashes.contains_key(key) && v.hashes[key] == hash)
}

/// `released` hands back exactly the textures `old` held under the keys in
/// `gone`: one pair per such key, each with that key's texture.
pub open spec fn released_exactly<T>(
    old: Map<u64, LayerEntry<T>>,
    gone: Set<u64>,
    released: Seq<(u64, T)>,
) -> bool {
    &&& forall|i: int|
        0 <= i < released.len() ==> gone.contains(#[trigger] released[i].0) && old.contains_key(
            released[i].0,
        ) && released[i].1 == old[released[i].0].0
    &&& forall|k: u64|
        #[trigger] gone.contains(k) && old.contains_key(k) ==> exists|i: int|
            0 <= i < released.len() && #[trigger] released[i].0 == k
    &&& forall|i: int, j: int| 0 <= i < j < released.len() ==> released[i].0 != released[j].0
}

fn collect_keys<V>(m: &HashMap<u64, V>) -> (r: Vec<u64>)
    ensures
        r@.to_set() == m@.dom(),
{
    let ghost ks = vstd::std_specs::hash::spec_keys_iter(m).remaining().unref();
    let mut r: Vec<u64> = Vec::new();
    for k in it: m.keys()
        invariant
            it.seq().unref() == ks,
            r@ == ks.subrange(0, it.index()),
    {
        let ghost prev = r@;
        r.push(*k);
        assert(ks[it.index()] == *k);
        assert(r@ =~= ks.subrange(0, it.index() + 1));
    }
    assert(r@ =~= ks);
    r
}

impl<T> LayerTextureCache<T> {
    /// Every texture has a hash and every hash a texture.
    #[verifier::type_invariant]
    closed spec fn hashes_match_textures(self) -> bool {
        self.hashes@.dom() == self.textures@.dom()
    }

    /// An empty cache.
    pub fn new() -> (c: Self)
        ensures
            c@.textures == Map::<u64, LayerEntry<T>>::empty(),
            c@.hashes == Map::<u64, u64>::empty(),
            layer_cache_wf(c@),
    {
        LayerTextureCache { textures: HashMap::new(), hashes: HashMap::new() }
    }

    /// Number of cached textures.
    pub fn len(&self) -> (n: usize)
        ensures
            n == self@.textures.len(),
    {
        self.textures.len()
    }

    /// Whether no texture is cached.
    pub fn is_empty(&self) -> (r: bool)
        ensures
            r == (self@.textures.len() == 0),
    {
        self.textures.is_empty()
    }

    /// The cached texture of `key`, with its allocated size.
    pub fn get(&self, key: u64) -> (r: Option<&LayerEntry<T>>)
        ensures
            match r {
                Some(e) => self@.textures.contains_key(key) && *e == self@.textures[key],
                None => !self@.textures.contains_key(key),
            },
    {
        self.textures.get(&key)
    }

    /// Whether the subtree of `key`, whose freshly walked batch hashes to
    /// `hash`, has to be rasterized again.
    pub fn needs_bake(&self, key: u64, hash: u64) -> (r: bool)
        ensures
            r == spec_needs_bake(self@, key, hash),
    {
        if !self.textures.contains_key(&key) {
            return true;
        }
        match self.hashes.get(&key) {
            Some(h) => *h != hash,
            None => true,
        }
    }

    /// Store a freshly rasterized texture for `key` together with the hash
    /// of the batch that produced it. Returns the texture it replaces, if
    /// any, for the caller to release.
    pub fn store_bake(&mut self, key: u64, texture: T, size: (u32, u32), hash: u64) -> (old_texture:
        Option<T>)
        ensures
            layer_cache_wf(final(self)@),
            final(self)@.textures == old(self)@.textures.insert(key, (texture, size)),
            final(self)@.hashes == old(self)@.hashes.insert(key, hash),
            match old_texture {
                Some(t) => old(self)@.textures.contains_key(key) && t == old(self)@.textures[key].0,
                None => !old(self)@.textures.contains_key(key),
            },
    {
        let mut cur = LayerTextureCache::new();
        std::mem::swap(self, &mut cur);
        proof {
            use_type_invariant(&cur);
        }
        let LayerTextureCache { mut textures, mut hashes } = cur;
        let prev = textures.insert(key, (texture, size));
        hashes.insert(key, hash);
        proof {
            assert(hashes@.dom() =~= textures@.dom());
        }
        *self = LayerTextureCache { textures, hashes };
        match prev {
            Some((t, _)) => Some(t),
            None => None,
        }
    }

    /// Remove every key of `keys` (repeats allowed) and hand back the
    /// textures that were cached under them.
    pub fn remove_keys(&mut self, keys: &[u64]) -> (released: Vec<(u64, T)>)
        ensures
            layer_cache_wf(final(self)@),
            final(self)@.textures == old(self)@.textures.remove_keys(keys@.to_set()),
            final(self)@.hashes == old(self)@.hashes.remove_keys(keys@.to_set()),
            released_exactly(old(self)@.textures, keys@.to_set(), released@),
    {
        let mut cur = LayerTextureCache::new();
        std::mem::swap(self, &mut cur);
        proof {
            use_type_invariant(&cur);
        }
        let LayerTextureCache { mut textures, mut hashes } = cur;
        let ghost old_textures = textures@;
        let ghost old_hashes = hashes@;
        let mut released: Vec<(u64, T)> = Vec::new();
        let mut i: usize = 0;
        while i < keys.len()
            invariant
                i <= keys.len(),
                textures@ == old_textures.remove_keys(keys@.subrange(0, i as int).to_set()),
                hashes@ == old_hashes.remove_keys(keys@.subrange(0, i as int).to_set()),
                old_hashes.dom() == old_textures.dom(),
                released_exactly(old_textures, keys@.subrange(0, i as int).to_set(), released@),
            decreases keys.len() - i,
        {
            let key = keys[i];
            let ghost done = keys@.subrange(0, i as int).to_set();
            let ghost next = keys@.subrange(0, i + 1).to_set();
            assert(keys@.subrange(0, i + 1) =~= keys@.subrange(0, i as int).push(key));
            assert(next =~= done.insert(key));
            let ghost before = released@;
            match textures.remove(&key) {
                Some((t, _)) => {
                    released.push((key, t));
                },
                None => {},
            }
            hashes.remove(&key);
            proof {
                assert(textures@ =~= old_textures.remove_keys(next));
                assert(hashes@ =~= old_hashes.remove_keys(next));
                assert forall|k: u64| #[trigger]
                    next.contains(k) && old_textures.contains_key(k) implies exists|j: int|
                    0 <= j < released@.len() && #[trigger] released@[j].0 == k by {
                    if k == key {
                        if !done.contains(key) {
                            assert(released@[released@.len() - 1].0 == k);
                        } else {
                            let j = choose|j: int| 0 <= j < before.len() && #[trigger] before[j].0 == k;
                            assert(released@[j].0 == k);
                        }
                    } else {
                        assert(done.contains(k));
                        let j = choose|j: int| 0 <= j < before.len() && #[trigger] before[j].0 == k;
                        assert(released@[j].0 == k);
                    }
                }
                assert forall|a: int, b: int| 0 <= a < b < released@.len() implies released@[a].0
                    != released@[b].0 by {
                    if b == released@.len() - 1 && released@.len() > before.len() {
                        assert(!done.contains(key));
                        assert(done.contains(before[a].0));
                    }
                }
            }
            i = i + 1;
        }
        assert(keys@.subrange(0, keys@.len() as int) =~= keys@);
        assert(hashes@.dom() =~= textures@.dom());
        *self = LayerTextureCache { textures, hashes };
        released
    }

    /// Remove every cached entry whose key is not in `live` and hand back
    /// those textures (the nodes were demoted).
    pub fn retain_live(&mut self, live: &Vec<u64>) -> (released: Vec<(u64, T)>)
        ensures
            layer_cache_wf(final(self)@),
            final(self)@.textures == old(self)@.textures.restrict(live@.to_set()),
            final(self)@.hashes == old(self)@.hashes.restrict(live@.to_set()),
            released_exactly(old(self)@.textures, old(self)@.textures.dom() - live@.to_set(), released@),
    {
        let all = collect_keys(&self.textures);
        let mut stale: Vec<u64> = Vec::new();
        let mut i: usize = 0;
        while i < all.len()
            invariant
                i <= all.len(),
                stale@.to_set() == all@.subrange(0, i as int).to_set() - live@.to_set(),
            decreases all.len() - i,
        {
            let k = all[i];
            let mut is_live = false;
            let mut j: usize = 0;
            while j < live.len()
                invariant
                    j <= live.len(),
                    is_live == live@.subrange(0, j as int).contains(k),
                decreases live.len() - j,
            {
                assert(live@.subrange(0, j + 1) =~= live@.subrange(0, j as int).push(live@[j as int]));
                if live[j] == k {
                    is_live = true;
                }
                j = j + 1;
            }
            assert(live@.subrange(0, live@.len() as int) =~= live@);
            assert(all@.subrange(0, i + 1) =~= all@.subrange(0, i as int).push(k));
            let ghost prev = stale@;
            if !is_live {
                stale.push(k);
                assert(stale@ =~= prev.push(k));
            }
            proof {
                all@.subrange(0, i as int).lemma_push_to_set_commute(k);
                if !is_live {
                    prev.lemma_push_to_set_commute(k);
                }
            }
            assert(stale@.to_set() =~= all@.subrange(0, i + 1).to_set() - live@.to_set());
            i = i + 1;
        }
        assert(all@.subrange(0, all@.len() as int) =~= all@);
        let ghost old_view = self@;
        let released = self.remove_keys(stale.as_slice());
        proof {
            assert(stale@.to_set() =~= old_view.textures.dom() - live@.to_set());
            assert(self@.textures =~= old_view.textures.restrict(live@.to_set()));
            assert(self@.hashes =~= old_view.hashes.restrict(live@.to_set()));
        }
        released
    }

    /// Remove every entry and hand back all textures.
    pub fn drain(&mut self) -> (released: Vec<(u64, T)>)
        ensures
            layer_cache_wf(final(self)@),
            final(self)@.textures == Map::<u64, LayerEntry<T>>::empty(),
            final(self)@.hashes == Map::<u64, u64>::empty(),
            released_exactly(old(self)@.textures, old(self)@.textures.dom(), released@),
    {
        let all = collect_keys(&self.textures);
        let ghost old_view = self@;
        let released = self.remove_keys(all.as_slice());
        proof {
            assert(self@.textures =~= Map::<u64, LayerEntry<T>>::empty());
            assert(self@.hashes =~= Map::<u64, u64>::empty());
        }
        released
    }
}

/// The cache after storing `(texture, size)` baked from a batch hashing to
/// `hash` under `key`.
pub open spec fn stored<T>(v: LayerCacheView<T>, key: u64, texture: T, size: (u32, u32), hash: u64) -> LayerCacheView<T> {
    LayerCacheView { textures: v.textures.insert(key, (texture, size)), hashes: v.hashes.insert(key, hash) }
}

/// The cache after removing the keys in `keys`.
pub open spec fn without<T>(v: LayerCacheView<T>, keys: Set<u64>) -> LayerCacheView<T> {
    LayerCacheView { textures: v.textures.remove_keys(keys), hashes: v.hashes.remove_keys(keys) }
}

/// Dirty-skip: right after a bake, a paint whose batch hashes the same keeps
/// the texture, and a paint whose batch hashes differently bakes again.
pub proof fn law_bake_then_skip<T>(v: LayerCacheView<T>, key: u64, texture: T, size: (u32, u32), hash: u64, other: u64)
    requires
        other != hash,
    ensures
        !spec_needs_bake(stored(v, key, texture, size, hash), key, hash),
        spec_needs_bake(stored(v, key, texture, size, hash), key, other),
{
}

/// Invalidating keys forces their next paint to bake, whatever the batch
/// hashes to, and leaves every other node's texture and hash alone.
pub proof fn law_invalidated_keys_rebake<T>(v: LayerCacheView<T>, keys: Set<u64>, key: u64, hash: u64)
    ensures
        keys.contains(key) ==> spec_needs_bake(without(v, keys), key, hash),
        !keys.contains(key) ==> (spec_needs_bake(without(v, keys), key, hash) == spec_needs_bake(v, key, hash)),
{
}

/// Textures of the CSS-animated and of the motion-bound subtrees.
pub struct LayerTextureRegistry<T> {
    pub css: LayerTextureCache<T>,
    pub motion: LayerTextureCache<T>,
}

impl<T> LayerTextureRegistry<T> {
    /// Both caches empty.
    pub fn new() -> (r: Self)
        ensures
            r.css@.textures.len() == 0,
            r.motion@.textures.len() == 0,
            layer_cache_wf(r.css@),
            layer_cache_wf(r.motion@),
    {
        LayerTextureRegistry { css: LayerTextureCache::new(), motion: LayerTextureCache::new() }
    }

    /// Drop the texture and hash of each listed key from both caches, so
    /// freshly mounted overlay subtrees bake again on the next paint.
    /// Returns the released CSS and motion textures.
    pub fn invalidate_overlay_mount_textures(&mut self, keys: &[u64]) -> (released: (
        Vec<(u64, T)>,
        Vec<(u64, T)>,
    ))
        ensures
            layer_cache_wf(final(self).css@),
            layer_cache_wf(final(self).motion@),
            final(self).css@ == without(old(self).css@, keys@.to_set()),
            final(self).motion@ == without(old(self).motion@, keys@.to_set()),
            released_exactly(old(self).css@.textures, keys@.to_set(), released.0@),
            released_exactly(old(self).motion@.textures, keys@.to_set(), released.1@),
    {
        let css = self.css.remove_keys(keys);
        let motion = self.motion.remove_keys(keys);
        (css, motion)
    }

    /// Drop every cached texture of both caches. Returns the released CSS
    /// and motion textures.
    pub fn drain_all_layer_textures(&mut self) -> (released: (Vec<(u64, T)>, Vec<(u64, T)>))
        ensures
            layer_cache_wf(final(self).css@),
            layer_cache_wf(final(self).motion@),
            final(self).css@.textures.len() == 0,
            final(self).motion@.textures.len() == 0,
            final(self).css@.hashes.len() == 0,
            final(self).motion@.hashes.len() == 0,
            released_exactly(old(self).css@.textures, old(self).css@.textures.dom(), released.0@),
            released_exactly(old(self).motion@.textures, old(self).motion@.textures.dom(), released.1@),
    {
        let css = self.css.drain();
        let motion = self.motion.drain();
        (css, motion)
    }
}

} // verus!
