//! Scheduling of the 3D meshes a frame draws: which meshes take part in the
//! shadow pass and with which slot, the order of the main passes (opaque and
//! masked meshes before blended ones), and when the environment cubemap has
//! to be uploaded again.

use crate::canvas::{canvas_overlay_order, is_stable_order};
use vstd::prelude::*;

verus! {

/// Sort keys for the main passes: blended meshes after all others.
pub open spec fn blend_keys(blend: Seq<bool>) -> Seq<(u32, usize)> {
    blend.map_values(|b: bool| (if b { 1u32 } else { 0u32 }, 0usize))
}

/// Order of the main passes: a stable sort of the mesh indices that puts
/// every blended mesh after every opaque or masked one, keeping submission
/// order within each group, so all opaque depth is written before any
/// blended fragment is composited.
pub fn mesh_dispatch_order(blend: &Vec<bool>) -> (order: Vec<usize>)
    ensures
        is_stable_order(blend_keys(blend@), order@),
{
    let mut keys: Vec<(u32, usize)> = Vec::new();
    let mut i: usize = 0;
    while i < blend.len()
        invariant
            i <= blend.len(),
            keys@ == blend_keys(blend@).subrange(0, i as int),
        decreases blend.len() - i,
    {
        keys.push((if blend[i] { 1u32 } else { 0u32 }, 0usize));
        i = i + 1;
        assert(keys@ =~= blend_keys(blend@).subrange(0, i as int));
    }
    assert(blend_keys(blend@).subrange(0, blend@.len() as int) =~= blend_keys(blend@));
    canvas_overlay_order(&keys)
}

/// In the main-pass order no blended mesh comes before an unblended one.
pub proof fn law_opaque_before_blend(blend: Seq<bool>, order: Seq<usize>, i: int, j: int)
    requires
        is_stable_order(blend_keys(blend), order),
        0 <= i < j < order.len(),
    ensures
        !(blend[order[i] as int] && !blend[order[j] as int]),
{
    assert(order[i] < blend.len() && order[j] < blend.len());
    assert(blend_keys(blend)[order[i] as int].0 == (if blend[order[i] as int] { 1u32 } else { 0u32 }));
    assert(blend_keys(blend)[order[j] as int].0 == (if blend[order[j] as int] { 1u32 } else { 0u32 }));
}

/// Number of shadow casters among the first `n` meshes.
pub open spec fn casters_before(casts: Seq<bool>, n: int) -> nat
    decreases n,
{
    if n <= 0 {
        0
    } else {
        casters_before(casts, n - 1) + (if casts[n - 1] { 1nat } else { 0nat })
    }
}

/// Shadow-pass slot of mesh `i`: a caster gets the number of casters before
/// it, a non-caster none.
pub open spec fn spec_shadow_slot(casts: Seq<bool>, i: int) -> Option<usize> {
    if casts[i] {
        Some(casters_before(casts, i) as usize)
    } else {
        None
    }
}

/// Shadow-pass slot of every mesh, in submission order: a caster gets the
/// number of casters before it (the first one, slot 0, clears the shadow
/// map), a non-caster gets none.
pub fn shadow_slots(casts: &Vec<bool>) -> (slots: Vec<Option<usize>>)
    ensures
        slots@.len() == casts@.len(),
        forall|i: int| 0 <= i < casts@.len() ==> #[trigger] slots@[i] == spec_shadow_slot(casts@, i),
{
    let mut slots: Vec<Option<usize>> = Vec::new();
    let mut count: usize = 0;
    let mut i: usize = 0;
    while i < casts.len()
        invariant
            i <= casts.len(),
            count == casters_before(casts@, i as int),
            count <= i,
            slots@.len() == i,
            forall|k: int|
                0 <= k < i ==> #[trigger] slots@[k] == (if casts@[k] {
                    Some(casters_before(casts@, k) as usize)
                } else {
                    None
                }),
        decreases casts.len() - i,
    {
        if casts[i] {
            slots.push(Some(count));
            count = count + 1;
        } else {
            slots.push(None);
        }
        i = i + 1;
    }
    slots
}

/// Whether the main pass samples the shadow map: only when at least one
/// caster was drawn into it.
pub fn shadows_sampled(casts: &Vec<bool>) -> (r: bool)
    ensures
        r == (casters_before(casts@, casts@.len() as int) > 0),
{
    let mut i: usize = 0;
    let mut any = false;
    while i < casts.len()
        invariant
            i <= casts.len(),
            any == (casters_before(casts@, i as int) > 0),
        decreases casts.len() - i,
    {
        if casts[i] {
            any = true;
        }
        i = i + 1;
    }
    any
}

/// The environment most recently uploaded before mesh `n` (in main-pass
/// order): the last present environment among the first `n` meshes.
pub open spec fn last_env(envs: Seq<Option<usize>>, n: int) -> Option<usize>
    decreases n,
{
    if n <= 0 {
        None
    } else if envs[n - 1] is Some {
        envs[n - 1]
    } else {
        last_env(envs, n - 1)
    }
}

/// Whether mesh `i` uploads its environment: it has one, and it is not the
/// one uploaded last.
pub open spec fn spec_uploads_env(envs: Seq<Option<usize>>, i: int) -> bool {
    envs[i] is Some && last_env(envs, i) != envs[i]
}

/// Which meshes upload their environment cubemap, given the identities of
/// their environments in main-pass order: a mesh with an environment
/// uploads it unless it is the one uploaded last.
pub fn env_uploads(envs: &Vec<Option<usize>>) -> (uploads: Vec<bool>)
    ensures
        uploads@.len() == envs@.len(),
        forall|i: int| 0 <= i < envs@.len() ==> #[trigger] uploads@[i] == spec_uploads_env(envs@, i),
{
    let mut uploads: Vec<bool> = Vec::new();
    let mut last: Option<usize> = None;
    let mut i: usize = 0;
    while i < envs.len()
        invariant
            i <= envs.len(),
            last == last_env(envs@, i as int),
            uploads@.len() == i,
            forall|k: int|
                0 <= k < i ==> #[trigger] uploads@[k] == (envs@[k] is Some && last_env(envs@, k)
                    != envs@[k]),
        decreases envs.len() - i,
    {
        let up = match envs[i] {
            Some(e) => match last {
                Some(l) => l != e,
                None => true,
            },
            None => false,
        };
        uploads.push(up);
        if up {
            last = envs[i];
        }
        i = i + 1;
    }
    uploads
}

/// Meshes sharing one environment upload it once: a mesh whose environment
/// is the one its predecessor had does not upload it again.
pub proof fn law_shared_environment_uploaded_once(envs: Seq<Option<usize>>, i: int)
    requires
        0 < i < envs.len(),
        envs[i] is Some,
        envs[i - 1] == envs[i],
    ensures
        last_env(envs, i) == envs[i],
{
}


/// Casters before `n` never outnumber the meshes before `n`, and each caster
/// adds exactly one.
proof fn lemma_casters_before(casts: Seq<bool>, i: int, j: int)
    requires
        0 <= i <= j <= casts.len(),
    ensures
        casters_before(casts, i) <= casters_before(casts, j),
        casters_before(casts, j) <= j,
        i < j && casts[i] ==> casters_before(casts, i) < casters_before(casts, j),
    decreases j,
{
    if j > 0 {
        if i < j {
            lemma_casters_before(casts, i, j - 1);
        } else {
            lemma_casters_before(casts, j - 1, j - 1);
        }
    }
}

/// Shadow slots: non-casters get none; casters get distinct slots in
/// submission order, the first caster slot 0, and every slot is below the
/// number of casters, so the casters fill slots `0..count` exactly.
pub proof fn law_shadow_slots_number_the_casters(casts: Seq<bool>, i: int, j: int)
    requires
        0 <= i < j < casts.len(),
        casters_before(casts, casts.len() as int) <= usize::MAX,
    ensures
        !casts[i] ==> spec_shadow_slot(casts, i) is None,
        casts[i] ==> spec_shadow_slot(casts, i) is Some && spec_shadow_slot(casts, i)->0
            < casters_before(casts, casts.len() as int),
        casts[i] && casts[j] ==> spec_shadow_slot(casts, i)->0 < spec_shadow_slot(casts, j)->0,
        casts[i] && (forall|k: int| 0 <= k < i ==> !#[trigger] casts[k]) ==> spec_shadow_slot(
            casts,
            i,
        ) == Some(0usize),
{
    lemma_casters_before(casts, i, j);
    lemma_casters_before(casts, j, casts.len() as int);
    lemma_casters_before(casts, i, i + 1);
    lemma_casters_before(casts, i + 1, casts.len() as int);
    if forall|k: int| 0 <= k < i ==> !#[trigger] casts[k] {
        lemma_no_casters_before(casts, i);
    }
}

proof fn lemma_no_casters_before(casts: Seq<bool>, n: int)
    requires
        0 <= n <= casts.len(),
        forall|k: int| 0 <= k < n ==> !#[trigger] casts[k],
    ensures
        casters_before(casts, n) == 0,
    decreases n,
{
    if n > 0 {
        lemma_no_casters_before(casts, n - 1);
    }
}

/// Environment uploads: a mesh without an environment never uploads; the
/// first mesh with one uploads it; a mesh whose environment is its
/// predecessor's does not upload again; a mesh whose environment differs
/// from its predecessor's (which has one) uploads it.
pub proof fn law_environment_uploaded_when_it_changes(envs: Seq<Option<usize>>, i: int)
    requires
        0 <= i < envs.len(),
    ensures
        envs[i] is None ==> !spec_uploads_env(envs, i),
        envs[i] is Some && (forall|k: int| 0 <= k < i ==> #[trigger] envs[k] is None)
            ==> spec_uploads_env(envs, i),
        i > 0 && envs[i] is Some && envs[i - 1] == envs[i] ==> !spec_uploads_env(envs, i),
        i > 0 && envs[i] is Some && envs[i - 1] is Some && envs[i - 1] != envs[i]
            ==> spec_uploads_env(envs, i),
{
    if envs[i] is Some && (forall|k: int| 0 <= k < i ==> #[trigger] envs[k] is None) {
        lemma_no_env_before(envs, i);
    }
}

proof fn lemma_no_env_before(envs: Seq<Option<usize>>, n: int)
    requires
        0 <= n <= envs.len(),
        forall|k: int| 0 <= k < n ==> #[trigger] envs[k] is None,
    ensures
        last_env(envs, n) is None,
    decreases n,
{
    if n > 0 {
        lemma_no_env_before(envs, n - 1);
    }
}

} // verus!
