//! Fade-in deadlines of freshly loaded images.
//!
//! When an image enters the cache with a fade-in duration, the renderer
//! records the moment its fade ends. At every frame boundary the deadlines
//! that have been reached are dropped; while any remain, the window keeps
//! asking for frames (and the static layer is redrawn) so the whole fade is
//! seen, and once the last one is reached the redraws stop.

use vstd::prelude::*;

verus! {

/// The model of a deadline list: each image source with the time, in
/// milliseconds, at which its fade ends.
pub open spec fn entry_views(s: Seq<(String, u64)>) -> Seq<(Seq<char>, u64)> {
    s.map_values(|e: (String, u64)| (e.0@, e.1))
}

/// No source occurs twice.
pub open spec fn sources_distinct(v: Seq<(Seq<char>, u64)>) -> bool {
    forall|i: int, j: int| 0 <= i < j < v.len() ==> v[i].0 != v[j].0
}

/// The end of a fade of `fade_ms` milliseconds that starts at `now_ms`:
/// none when no fade was asked for, or when the end is past the clock's range.
pub open spec fn fade_deadline(now_ms: u64, fade_ms: u32) -> Option<u64> {
    if fade_ms > 0 && now_ms + fade_ms <= u64::MAX {
        Some((now_ms + fade_ms) as u64)
    } else {
        None
    }
}

/// An entry belongs to another source than `source`.
pub open spec fn not_from(source: Seq<char>) -> spec_fn((Seq<char>, u64)) -> bool {
    |e: (Seq<char>, u64)| e.0 != source
}

/// An entry's fade has not ended by `now_ms`.
pub open spec fn fading_at(now_ms: u64) -> spec_fn((Seq<char>, u64)) -> bool {
    |e: (Seq<char>, u64)| now_ms < e.1
}

/// The entries of every source but `source`, in order.
pub open spec fn without_source(v: Seq<(Seq<char>, u64)>, source: Seq<char>) -> Seq<(Seq<char>, u64)> {
    v.filter(not_from(source))
}

/// The entries whose fade has not ended by `now_ms`, in order.
pub open spec fn still_fading(v: Seq<(Seq<char>, u64)>, now_ms: u64) -> Seq<(Seq<char>, u64)> {
    v.filter(fading_at(now_ms))
}

/// Some entry belongs to `source`.
pub open spec fn has_source(v: Seq<(Seq<char>, u64)>, source: Seq<char>) -> bool {
    exists|i: int| 0 <= i < v.len() && #[trigger] v[i].0 == source
}

/// The fade deadlines of the images in the cache, one per source.
///
/// The entries are a list searched by whole-source equality, with "one
/// deadline per source" as the type's invariant; that keeps every operation
/// stated exactly over the sources' text.
pub struct ImageFadeDeadlines {
    entries: Vec<(String, u64)>,
}

impl View for ImageFadeDeadlines {
    type V = Seq<(Seq<char>, u64)>;

    closed spec fn view(&self) -> Seq<(Seq<char>, u64)> {
        entry_views(self.entries@)
    }
}

impl ImageFadeDeadlines {
    /// A source has at most one deadline.
    #[verifier::type_invariant]
    closed spec fn one_deadline_per_source(self) -> bool {
        sources_distinct(entry_views(self.entries@))
    }

    /// No image is fading.
    pub fn new() -> (r: Self)
        ensures
            r@ == Seq::<(Seq<char>, u64)>::empty(),
    {
        let r = ImageFadeDeadlines { entries: Vec::new() };
        assert(entry_views(r.entries@) =~= Seq::<(Seq<char>, u64)>::empty());
        r
    }

    /// Number of images whose fade has not been dropped yet.
    pub fn len(&self) -> (n: usize)
        ensures
            n == self@.len(),
    {
        self.entries.len()
    }

    /// Whether any image is still fading in.
    pub fn has_pending(&self) -> (r: bool)
        ensures
            r == (self@.len() > 0),
    {
        self.entries.len() > 0
    }

    /// The fade deadline recorded for `source`, if any (there is at most one).
    pub fn deadline(&self, source: &String) -> (r: Option<u64>)
        ensures
            sources_distinct(self@),
            match r {
                Some(d) => self@.contains((source@, d)),
                None => !has_source(self@, source@),
            },
    {
        proof {
            use_type_invariant(self);
        }
        let mut i: usize = 0;
        while i < self.entries.len()
            invariant
                i <= self.entries@.len(),
                self@ == entry_views(self.entries@),
                sources_distinct(self@),
                forall|j: int| 0 <= j < i ==> #[trigger] self@[j].0 != source@,
            decreases self.entries.len() - i,
        {
            if self.entries[i].0 == *source {
                assert(self@[i as int] == (source@, self.entries@[i as int].1));
                return Some(self.entries[i].1);
            }
            i = i + 1;
        }
        None
    }

    /// The entries of every source but `source`, in order.
    fn entries_without(&self, source: &String) -> (r: Vec<(String, u64)>)
        ensures
            entry_views(r@) == without_source(self@, source@),
            sources_distinct(entry_views(r@)),
    {
        proof {
            use_type_invariant(self);
        }
        let ghost v = self@;
        let mut kept: Vec<(String, u64)> = Vec::new();
        let mut i: usize = 0;
        while i < self.entries.len()
            invariant
                i <= self.entries@.len(),
                v == entry_views(self.entries@),
                sources_distinct(v),
                entry_views(kept@) == without_source(v.take(i as int), source@),
                sources_distinct(entry_views(kept@)),
                forall|a: int, b: int|
                    0 <= a < kept@.len() && i <= b < v.len() ==> #[trigger] entry_views(kept@)[a].0
                        != #[trigger] v[b].0,
            decreases self.entries.len() - i,
        {
            let ghost before = entry_views(kept@);
            proof {
                assert(v.take(i + 1) =~= v.take(i as int).push(v[i as int]));
                v.take(i as int).lemma_filter_push(v[i as int], not_from(source@));
            }
            if self.entries[i].0 != *source {
                let e = (self.entries[i].0.clone(), self.entries[i].1);
                kept.push(e);
                assert(entry_views(kept@) =~= before.push(v[i as int]));
                assert forall|a: int, b: int|
                    0 <= a < b < entry_views(kept@).len() implies entry_views(kept@)[a].0
                    != entry_views(kept@)[b].0 by {
                    if b == before.len() {
                        assert(before[a].0 != v[i as int].0);
                    }
                }
                assert forall|a: int, b: int|
                    0 <= a < kept@.len() && i + 1 <= b < v.len() implies #[trigger] entry_views(
                        kept@,
                    )[a].0 != #[trigger] v[b].0 by {
                    if a == before.len() {
                        assert(v[i as int].0 != v[b].0);
                    } else {
                        assert(entry_views(kept@)[a] == before[a]);
                    }
                }
            }
            i = i + 1;
        }
        assert(v.take(v.len() as int) =~= v);
        kept
    }

    /// The entries whose fade has not ended by `now_ms`, in order.
    fn entries_fading_at(&self, now_ms: u64) -> (r: Vec<(String, u64)>)
        ensures
            entry_views(r@) == still_fading(self@, now_ms),
            sources_distinct(entry_views(r@)),
    {
        proof {
            use_type_invariant(self);
        }
        let ghost v = self@;
        let mut kept: Vec<(String, u64)> = Vec::new();
        let mut i: usize = 0;
        while i < self.entries.len()
            invariant
                i <= self.entries@.len(),
                v == entry_views(self.entries@),
                sources_distinct(v),
                entry_views(kept@) == still_fading(v.take(i as int), now_ms),
                sources_distinct(entry_views(kept@)),
                forall|a: int, b: int|
                    0 <= a < kept@.len() && i <= b < v.len() ==> #[trigger] entry_views(kept@)[a].0
                        != #[trigger] v[b].0,
            decreases self.entries.len() - i,
        {
            let ghost before = entry_views(kept@);
            proof {
                assert(v.take(i + 1) =~= v.take(i as int).push(v[i as int]));
                v.take(i as int).lemma_filter_push(v[i as int], fading_at(now_ms));
            }
            if now_ms < self.entries[i].1 {
                let e = (self.entries[i].0.clone(), self.entries[i].1);
                kept.push(e);
                assert(entry_views(kept@) =~= before.push(v[i as int]));
                assert forall|a: int, b: int|
                    0 <= a < b < entry_views(kept@).len() implies entry_views(kept@)[a].0
                    != entry_views(kept@)[b].0 by {
                    if b == before.len() {
                        assert(before[a].0 != v[i as int].0);
                    }
                }
                assert forall|a: int, b: int|
                    0 <= a < kept@.len() && i + 1 <= b < v.len() implies #[trigger] entry_views(
                        kept@,
                    )[a].0 != #[trigger] v[b].0 by {
                    if a == before.len() {
                        assert(v[i as int].0 != v[b].0);
                    } else {
                        assert(entry_views(kept@)[a] == before[a]);
                    }
                }
            }
            i = i + 1;
        }
        assert(v.take(v.len() as int) =~= v);
        kept
    }

    /// Record that the image `source` was loaded at `now_ms` with a fade-in
    /// of `fade_duration_ms`: its deadline becomes the end of that fade.
    /// Without a fade (or with an end past the clock's range) nothing is
    /// recorded and an earlier deadline of the source stays.
    pub fn record_load(&mut self, source: &String, now_ms: u64, fade_duration_ms: u32)
        ensures
            final(self)@ == match fade_deadline(now_ms, fade_duration_ms) {
                Some(d) => without_source(old(self)@, source@).push((source@, d)),
                None => old(self)@,
            },
    {
        if fade_duration_ms == 0 {
            return;
        }
        match now_ms.checked_add(fade_duration_ms as u64) {
            None => {},
            Some(d) => {
                let mut kept = self.entries_without(source);
                let ghost before = entry_views(kept@);
                kept.push((source.clone(), d));
                assert(entry_views(kept@) =~= before.push((source@, d)));
                assert forall|a: int| 0 <= a < before.len() implies before[a].0 != source@ by {
                    assert(before.contains(before[a]));
                }
                self.entries = kept;
            },
        }
    }

    /// Drop the deadline of `source`, as when its file changed on disk and
    /// the image is read again.
    pub fn remove_source(&mut self, source: &String)
        ensures
            final(self)@ == without_source(old(self)@, source@),
    {
        let kept = self.entries_without(source);
        self.entries = kept;
    }

    /// At a frame boundary at time `now_ms`, drop every fade that has ended
    /// and report whether any image is still fading in.
    pub fn expire(&mut self, now_ms: u64) -> (pending: bool)
        ensures
            final(self)@ == still_fading(old(self)@, now_ms),
            pending == (final(self)@.len() > 0),
    {
        let kept = self.entries_fading_at(now_ms);
        self.entries = kept;
        self.entries.len() > 0
    }
}

/// Frames only ever drop more: expiring at an earlier time and then at a
/// later one leaves what expiring at the later time alone leaves, and
/// expiring twice at one time is expiring once.
pub proof fn law_later_frames_drop_more(v: Seq<(Seq<char>, u64)>, earlier: u64, later: u64)
    requires
        earlier <= later,
    ensures
        still_fading(still_fading(v, earlier), later) == still_fading(v, later),
    decreases v.len(),
{
    if v.len() > 0 {
        let p = v.drop_last();
        let x = v.last();
        assert(v =~= p.push(x));
        law_later_frames_drop_more(p, earlier, later);
        p.lemma_filter_push(x, fading_at(earlier));
        p.lemma_filter_push(x, fading_at(later));
        still_fading(p, earlier).lemma_filter_push(x, fading_at(later));
    } else {
        v.lemma_filter_len(fading_at(earlier));
        v.lemma_filter_len(fading_at(later));
        assert(still_fading(v, earlier) =~= v);
        still_fading(v, earlier).lemma_filter_len(fading_at(later));
        assert(still_fading(still_fading(v, earlier), later) =~= still_fading(v, later));
    }
}

/// An image loaded at `loaded_ms` with a fade of `fade_ms` keeps frames
/// coming exactly until its fade ends: a frame at `now_ms` keeps its
/// entry if and only if `now_ms` is before the end of the fade.
pub proof fn law_fade_window(
    v: Seq<(Seq<char>, u64)>,
    source: Seq<char>,
    loaded_ms: u64,
    fade_ms: u32,
    now_ms: u64,
)
    requires
        fade_deadline(loaded_ms, fade_ms) is Some,
    ensures
        has_source(
            still_fading(without_source(v, source).push((source, fade_deadline(loaded_ms, fade_ms)->0)), now_ms),
            source,
        ) <==> now_ms < loaded_ms + fade_ms,
{
    let d = fade_deadline(loaded_ms, fade_ms)->0;
    let rest = without_source(v, source);
    let r = rest.push((source, d));
    let out = still_fading(r, now_ms);
    let others = still_fading(rest, now_ms);
    rest.lemma_filter_push((source, d), fading_at(now_ms));
    assert forall|i: int| 0 <= i < others.len() implies others[i].0 != source by {
        assert(others.contains(others[i]));
        rest.lemma_filter_contains_rev(fading_at(now_ms), others[i]);
        let w = choose|w: int| 0 <= w < rest.len() && rest[w] == others[i];
        v.lemma_filter_pred(not_from(source), w);
    }
    if now_ms < d {
        assert(out == others.push((source, d)));
        assert(out[others.len() as int].0 == source);
    } else {
        assert(out == others);
    }
}

} // verus!
