//! Image upload policy: which decoded images may be block-compressed,
//! and how large the glass backdrop texture has to be.

use vstd::prelude::*;
use vstd::string::StringSliceAdditionalSpecFns;

verus! {

/// Smallest width and height (in pixels) for which block compression pays off.
pub const BC_MIN_DIM: u32 = 256;

/// The bytes of the `emoji://` URI scheme prefix.
pub open spec fn emoji_scheme() -> Seq<u8> {
    seq![101u8, 109u8, 111u8, 106u8, 105u8, 58u8, 47u8, 47u8]
}

/// `s` begins with the bytes of `prefix`.
pub open spec fn has_prefix(s: Seq<u8>, prefix: Seq<u8>) -> bool {
    prefix.len() <= s.len() && s.subrange(0, prefix.len() as int) == prefix
}

/// Whether an image with this source URI and these pixel dimensions may be
/// stored block-compressed: never for `emoji://` sprites, only for
/// dimensions that are multiples of 4, and only from 256 px upwards.
pub open spec fn spec_bc_eligible(source_uri: Seq<u8>, width: u32, height: u32) -> bool {
    &&& !has_prefix(source_uri, emoji_scheme())
    &&& width % 4 == 0
    &&& height % 4 == 0
    &&& width >= BC_MIN_DIM
    &&& height >= BC_MIN_DIM
}

fn starts_with_emoji_scheme(bytes: &[u8]) -> (r: bool)
    ensures
        r == has_prefix(bytes@, emoji_scheme()),
{
    if bytes.len() < 8 {
        return false;
    }
    let r = bytes[0] == 101u8 && bytes[1] == 109u8 && bytes[2] == 111u8 && bytes[3] == 106u8
        && bytes[4] == 105u8 && bytes[5] == 58u8 && bytes[6] == 47u8 && bytes[7] == 47u8;
    assert(r == (bytes@.subrange(0, 8) =~= emoji_scheme()));
    r
}

/// Decide whether an image entering the cache should be BC-compressed.
pub fn bc_eligible(source_uri: &str, width: u32, height: u32) -> (r: bool)
    ensures
        r == spec_bc_eligible(source_uri.spec_bytes(), width, height),
{
    if starts_with_emoji_scheme(source_uri.as_bytes()) {
        return false;
    }
    if width % 4 != 0 || height % 4 != 0 {
        return false;
    }
    width >= BC_MIN_DIM && height >= BC_MIN_DIM
}

/// The glass backdrop is rendered at half resolution, at least 1×1.
pub open spec fn spec_backdrop_extent(width: u32, height: u32) -> (u32, u32) {
    (
        if width / 2 >= 1 { (width / 2) as u32 } else { 1u32 },
        if height / 2 >= 1 { (height / 2) as u32 } else { 1u32 },
    )
}

/// Size of the glass backdrop texture for a target of `width` × `height`.
pub fn glass_backdrop_extent(width: u32, height: u32) -> (r: (u32, u32))
    ensures
        r == spec_backdrop_extent(width, height),
{
    let w = width / 2;
    let h = height / 2;
    (if w >= 1 { w } else { 1 }, if h >= 1 { h } else { 1 })
}

/// Whether the backdrop texture has to be (re)created: there is none yet,
/// or its size differs from what the target needs.
pub fn backdrop_needs_realloc(current: Option<(u32, u32)>, width: u32, height: u32) -> (r: bool)
    ensures
        r == match current {
            Some(size) => size != spec_backdrop_extent(width, height),
            None => true,
        },
{
    let wanted = glass_backdrop_extent(width, height);
    match current {
        Some(size) => size.0 != wanted.0 || size.1 != wanted.1,
        None => true,
    }
}

/// A backdrop created for a target keeps serving it: once its size is the
/// one the target needs, it is not recreated.
pub proof fn law_backdrop_reused(width: u32, height: u32)
    ensures
        spec_backdrop_extent(width, height).0 >= 1,
        spec_backdrop_extent(width, height).1 >= 1,
        !(match Some(spec_backdrop_extent(width, height)) {
            Some(size) => size != spec_backdrop_extent(width, height),
            None => true,
        }),
{
}

/// `key` ends `path`: the last bytes of `path` are `key`.
pub open spec fn has_suffix(path: Seq<char>, key: Seq<char>) -> bool {
    key.len() <= path.len() && path.subrange(path.len() - key.len(), path.len() as int) == key
}

/// An image cache key may be backed by the file at `abs_path`: it is not
/// empty and the absolute path ends with it. This matches relative keys by
/// path suffix, absolute keys exactly, and leaves URLs alone.
pub open spec fn backs_path(abs_path: Seq<char>, key: Seq<char>) -> bool {
    key.len() > 0 && has_suffix(abs_path, key)
}

/// The keys among `keys`, in order, that the changed file may back.
pub open spec fn spec_stale_keys(abs_path: Seq<char>, keys: Seq<Seq<char>>) -> Seq<Seq<char>>
    decreases keys.len(),
{
    if keys.len() == 0 {
        Seq::empty()
    } else {
        let rest = spec_stale_keys(abs_path, keys.drop_last());
        if backs_path(abs_path, keys.last()) {
            rest.push(keys.last())
        } else {
            rest
        }
    }
}

/// The character views of a list of strings.
pub open spec fn string_views(v: Seq<String>) -> Seq<Seq<char>> {
    v.map_values(|s: String| s@)
}

fn chars_of(s: &str) -> (r: Vec<char>)
    ensures
        r@ == s@,
{
    let mut r: Vec<char> = Vec::new();
    for c in it: s.chars()
        invariant
            it.seq() == s@,
            r@ == s@.subrange(0, it.index()),
    {
        r.push(c);
        assert(r@ =~= s@.subrange(0, it.index() + 1));
    }
    assert(r@ =~= s@);
    r
}

fn ends_with_chars(path: &Vec<char>, key: &Vec<char>) -> (r: bool)
    ensures
        r == has_suffix(path@, key@),
{
    if key.len() > path.len() {
        return false;
    }
    let off = path.len() - key.len();
    let mut i: usize = 0;
    while i < key.len()
        invariant
            off + key.len() == path.len(),
            i <= key.len(),
            forall|j: int| 0 <= j < i ==> path@[off + j] == key@[j],
        decreases key.len() - i,
    {
        if path[off + i] != key[i] {
            assert(path@.subrange(off as int, path@.len() as int)[i as int] != key@[i as int]);
            return false;
        }
        i = i + 1;
    }
    assert(path@.subrange(off as int, path@.len() as int) =~= key@);
    true
}

/// The cached image keys that a changed file at `abs_path` may back, in the
/// order given; their entries (and load and fade timestamps) are dropped so
/// the next frame reads the file again.
pub fn stale_image_keys(abs_path: &str, keys: &Vec<String>) -> (r: Vec<String>)
    ensures
        string_views(r@) == spec_stale_keys(abs_path@, string_views(keys@)),
{
    let path = chars_of(abs_path);
    let mut r: Vec<String> = Vec::new();
    let mut i: usize = 0;
    while i < keys.len()
        invariant
            path@ == abs_path@,
            i <= keys.len(),
            string_views(r@) == spec_stale_keys(abs_path@, string_views(keys@).take(i as int)),
        decreases keys.len() - i,
    {
        let key = chars_of(keys[i].as_str());
        let ghost prefix = string_views(keys@).take(i + 1);
        assert(prefix.drop_last() =~= string_views(keys@).take(i as int));
        assert(prefix.last() == keys@[i as int]@);
        if key.len() > 0 && ends_with_chars(&path, &key) {
            let k = keys[i].clone();
            let ghost before = r@;
            r.push(k);
            assert(string_views(r@) =~= string_views(before).push(keys@[i as int]@));
        }
        i = i + 1;
    }
    assert(string_views(keys@).take(keys@.len() as int) =~= string_views(keys@));
    r
}


/// Block compression needs 4×4 blocks and pays off only from 256 px: an
/// image is eligible exactly when both dimensions are multiples of 4 and at
/// least 256, and its source is not an `emoji://` sprite. Eligibility never
/// depends on anything past the URI's scheme.
pub proof fn law_bc_needs_aligned_large_images(uri: Seq<u8>, width: u32, height: u32)
    ensures
        spec_bc_eligible(uri, width, height) ==> width % 4 == 0 && height % 4 == 0 && width >= 256
            && height >= 256,
        width % 4 != 0 ==> !spec_bc_eligible(uri, width, height),
        height % 4 != 0 ==> !spec_bc_eligible(uri, width, height),
        width < 256 || height < 256 ==> !spec_bc_eligible(uri, width, height),
        uri.len() >= 8 && uri.subrange(0, 8) == seq![101u8, 109u8, 111u8, 106u8, 105u8, 58u8, 47u8, 47u8]
            ==> !spec_bc_eligible(uri, width, height),
        (uri.len() == 0 || uri[0] != 101u8) ==> (spec_bc_eligible(uri, width, height) <==> (width
            % 4 == 0 && height % 4 == 0 && width >= 256 && height >= 256)),
{
}

/// The glass backdrop is half the target in each dimension (rounded down),
/// never empty, and never larger than the target when the target is not
/// empty.
pub proof fn law_backdrop_is_half_size(width: u32, height: u32)
    ensures
        spec_backdrop_extent(width, height).0 >= 1,
        spec_backdrop_extent(width, height).1 >= 1,
        width >= 2 ==> spec_backdrop_extent(width, height).0 * 2 <= width
            && width < spec_backdrop_extent(width, height).0 * 2 + 2,
        height >= 2 ==> spec_backdrop_extent(width, height).1 * 2 <= height
            && height < spec_backdrop_extent(width, height).1 * 2 + 2,
        width < 2 ==> spec_backdrop_extent(width, height).0 == 1,
        height < 2 ==> spec_backdrop_extent(width, height).1 == 1,
{
}


/// The stale keys are exactly the non-empty keys that end the changed
/// file's path, in the order given: each one is a key of the list and a
/// non-empty tail of the path, every such key is among them, and there are
/// never more of them than keys.
pub proof fn law_stale_keys_are_the_path_tails(abs_path: Seq<char>, keys: Seq<Seq<char>>)
    ensures
        spec_stale_keys(abs_path, keys).len() <= keys.len(),
        forall|j: int|
            0 <= j < spec_stale_keys(abs_path, keys).len() ==> {
                let k = #[trigger] spec_stale_keys(abs_path, keys)[j];
                &&& keys.contains(k)
                &&& 0 < k.len() <= abs_path.len()
                &&& abs_path.subrange(abs_path.len() - k.len(), abs_path.len() as int) == k
            },
        forall|i: int|
            0 <= i < keys.len() && 0 < keys[i].len() <= abs_path.len() && abs_path.subrange(
                abs_path.len() - keys[i].len(),
                abs_path.len() as int,
            ) == #[trigger] keys[i] ==> spec_stale_keys(abs_path, keys).contains(keys[i]),
    decreases keys.len(),
{
    if keys.len() > 0 {
        let p = keys.drop_last();
        law_stale_keys_are_the_path_tails(abs_path, p);
        let rest = spec_stale_keys(abs_path, p);
        let out = spec_stale_keys(abs_path, keys);
        assert forall|j: int| 0 <= j < out.len() implies {
            let k = #[trigger] out[j];
            &&& keys.contains(k)
            &&& 0 < k.len() <= abs_path.len()
            &&& abs_path.subrange(abs_path.len() - k.len(), abs_path.len() as int) == k
        } by {
            if j < rest.len() {
                assert(out[j] == rest[j]);
                let w = choose|w: int| 0 <= w < p.len() && p[w] == rest[j];
                assert(keys[w] == p[w]);
            } else {
                assert(out[j] == keys.last());
                assert(keys[keys.len() - 1] == keys.last());
            }
        }
        assert forall|i: int|
            0 <= i < keys.len() && 0 < keys[i].len() <= abs_path.len() && abs_path.subrange(
                abs_path.len() - keys[i].len(),
                abs_path.len() as int,
            ) == #[trigger] keys[i] implies out.contains(keys[i]) by {
            if i < keys.len() - 1 {
                assert(p[i] == keys[i]);
                assert(rest.contains(p[i]));
                let w = choose|w: int| 0 <= w < rest.len() && rest[w] == p[i];
                assert(out[w] == rest[w]);
            } else {
                assert(out[out.len() - 1] == keys[i]);
            }
        }
    }
}

} // verus!
