//! Hot-reload bookkeeping.
//!
//! The dev-server client, the file watchers and the frame loop share one
//! [`HotReloadState`]: the "rebuild pending" flag, the queue of asset paths
//! whose cached copies must be dropped, and the settle state that turns a
//! burst of source-file events into exactly one "sources dirty" signal.
//! The threads, sockets and watchers that feed it live outside the library;
//! everything they decide is decided here.

use std::path::PathBuf;
use vstd::prelude::*;
use vstd::string::StringSliceAdditionalSpecFns;

verus! {

/// `std::path::PathBuf`, carried through the queue unopened.
#[verifier::external_type_specification]
#[verifier::external_body]
pub struct ExPathBuf(PathBuf);

/// Shared hot-reload state.
pub struct HotReloadState {
    /// Set when a patch landed or a rebuild was requested; drained once per tick.
    pub rebuild_pending: bool,
    /// Absolute paths of assets rebuilt since the frame loop last looked.
    pub asset_queue: Vec<PathBuf>,
    /// Raised once per settled batch of source edits.
    pub sources_dirty: bool,
    /// Wall-clock milliseconds of the most recent source event.
    pub last_source_event_ms: u64,
    /// Whether a settle waiter is already watching for the writes to stop.
    pub settling: bool,
}

/// Mathematical model of [`HotReloadState`].
pub ghost struct HotReloadView {
    pub rebuild_pending: bool,
    pub asset_queue: Seq<PathBuf>,
    pub sources_dirty: bool,
    pub last_source_event_ms: u64,
    pub settling: bool,
}

impl View for HotReloadState {
    type V = HotReloadView;

    open spec fn view(&self) -> HotReloadView {
        HotReloadView {
            rebuild_pending: self.rebuild_pending,
            asset_queue: self.asset_queue@,
            sources_dirty: self.sources_dirty,
            last_source_event_ms: self.last_source_event_ms,
            settling: self.settling,
        }
    }
}

/// The state before anything happened.
pub open spec fn initial_view() -> HotReloadView {
    HotReloadView {
        rebuild_pending: false,
        asset_queue: Seq::empty(),
        sources_dirty: false,
        last_source_event_ms: 0,
        settling: false,
    }
}

/// Effect of a rebuild request: the flag goes up, nothing else moves.
pub open spec fn requested(s: HotReloadView) -> HotReloadView {
    HotReloadView { rebuild_pending: true, ..s }
}

/// Effect of draining the rebuild flag.
pub open spec fn rebuild_taken(s: HotReloadView) -> HotReloadView {
    HotReloadView { rebuild_pending: false, ..s }
}

/// Effect of draining the asset queue.
pub open spec fn invalidations_taken(s: HotReloadView) -> HotReloadView {
    HotReloadView { asset_queue: Seq::empty(), ..s }
}

/// Effect of pushing `paths`: an empty batch changes nothing; otherwise the
/// paths go to the back of the queue in order and a rebuild is requested.
pub open spec fn enqueued(s: HotReloadView, paths: Seq<PathBuf>) -> HotReloadView {
    if paths.len() == 0 {
        s
    } else {
        HotReloadView { asset_queue: s.asset_queue + paths, rebuild_pending: true, ..s }
    }
}

/// Effect of draining the sources-dirty flag.
pub open spec fn sources_taken(s: HotReloadView) -> HotReloadView {
    HotReloadView { sources_dirty: false, ..s }
}

/// Effect of a source event at `now_ms`: the deadline moves, and the state
/// is marked as settling.
pub open spec fn source_event_noted(s: HotReloadView, now_ms: u64) -> HotReloadView {
    HotReloadView { last_source_event_ms: now_ms, settling: true, ..s }
}

/// Effect of the end of a settle: the waiter is gone, the sources are dirty
/// and a rebuild is requested.
pub open spec fn settle_finished(s: HotReloadView) -> HotReloadView {
    HotReloadView { settling: false, sources_dirty: true, rebuild_pending: true, ..s }
}

/// Milliseconds elapsed since the last source event, floored at zero.
pub open spec fn quiet_for(last_ms: u64, now_ms: u64) -> int {
    if now_ms >= last_ms {
        now_ms - last_ms
    } else {
        0
    }
}

impl HotReloadState {
    /// A fresh state: no pending rebuild, empty queue, nothing settling.
    pub fn new() -> (s: Self)
        ensures
            s@ == initial_view(),
    {
        HotReloadState {
            rebuild_pending: false,
            asset_queue: Vec::new(),
            sources_dirty: false,
            last_source_event_ms: 0,
            settling: false,
        }
    }
}

/// Drain the rebuild-pending flag. Returns `true` if a patch landed or a
/// rebuild was requested since the last call.
pub fn take_rebuild_pending(state: &mut HotReloadState) -> (r: bool)
    ensures
        r == old(state).rebuild_pending,
        final(state)@ == rebuild_taken(old(state)@),
{
    let r = state.rebuild_pending;
    state.rebuild_pending = false;
    r
}

/// Drain the queued asset invalidations: every path pushed since the last
/// call, in the order it was pushed. The queue is left empty.
pub fn take_invalidations(state: &mut HotReloadState) -> (r: Vec<PathBuf>)
    ensures
        r@ == old(state).asset_queue@,
        final(state)@ == invalidations_taken(old(state)@),
{
    let mut taken: Vec<PathBuf> = Vec::new();
    std::mem::swap(&mut taken, &mut state.asset_queue);
    taken
}

/// Push `paths` onto the invalidation queue and request a rebuild. An empty
/// batch is ignored. Returns whether the event loop should be woken.
pub fn enqueue_invalidations(state: &mut HotReloadState, paths: Vec<PathBuf>) -> (wake: bool)
    ensures
        wake == (paths@.len() > 0),
        final(state)@ == enqueued(old(state)@, paths@),
{
    if paths.len() == 0 {
        return false;
    }
    let mut paths = paths;
    state.asset_queue.append(&mut paths);
    state.rebuild_pending = true;
    true
}

/// Ask the running app to rebuild its tree on the next tick. The caller
/// wakes the event loop afterwards.
pub fn request_rebuild(state: &mut HotReloadState)
    ensures
        final(state)@ == requested(old(state)@),
{
    state.rebuild_pending = true;
}

/// Whether source files have changed since this was last called.
pub fn take_sources_dirty(state: &mut HotReloadState) -> (r: bool)
    ensures
        r == old(state).sources_dirty,
        final(state)@ == sources_taken(old(state)@),
{
    let r = state.sources_dirty;
    state.sources_dirty = false;
    r
}

/// Record a source-file event seen at `now_ms`. Returns `true` when no
/// settle waiter is running yet, i.e. when the caller has to start one;
/// later events of the same burst only move the deadline it watches.
pub fn note_source_event(state: &mut HotReloadState, now_ms: u64) -> (start_waiter: bool)
    ensures
        start_waiter == !old(state).settling,
        final(state)@ == source_event_noted(old(state)@, now_ms),
{
    state.last_source_event_ms = now_ms;
    let was_settling = state.settling;
    state.settling = true;
    !was_settling
}

/// Whether the writes have been quiet for at least `settle_ms` at `now_ms`.
pub fn settle_elapsed(state: &HotReloadState, now_ms: u64, settle_ms: u64) -> (r: bool)
    ensures
        r == (quiet_for(state.last_source_event_ms, now_ms) >= settle_ms),
{
    now_ms.saturating_sub(state.last_source_event_ms) >= settle_ms
}

/// End a settle: drop the waiter, raise the sources-dirty flag and request
/// a rebuild.
pub fn finish_settle(state: &mut HotReloadState)
    ensures
        final(state)@ == settle_finished(old(state)@),
{
    state.settling = false;
    state.sources_dirty = true;
    request_rebuild(state);
}

/// One check of a settle waiter at `now_ms`, after it slept `settle_ms`:
/// when the writes have been quiet long enough the settle ends (sources
/// dirty, rebuild requested) and `true` comes back; otherwise nothing
/// changes and the waiter sleeps again.
pub fn settle_poll(state: &mut HotReloadState, now_ms: u64, settle_ms: u64) -> (done: bool)
    ensures
        done == (quiet_for(old(state).last_source_event_ms, now_ms) >= settle_ms),
        final(state)@ == (if done {
            settle_finished(old(state)@)
        } else {
            old(state)@
        }),
{
    if settle_elapsed(state, now_ms, settle_ms) {
        finish_settle(state);
        true
    } else {
        false
    }
}

/// The kinds of file-system event a watcher reports.
#[derive(PartialEq, Eq, Structural, Clone, Copy, Debug)]
pub enum FsEventKind {
    Any,
    Access,
    Create,
    Modify,
    Remove,
    Other,
}

/// Only data changes count: creations, modifications and removals.
pub open spec fn spec_is_data_change(kind: FsEventKind) -> bool {
    kind == FsEventKind::Create || kind == FsEventKind::Modify || kind == FsEventKind::Remove
}

/// One step a watcher takes for an event.
#[derive(PartialEq, Eq, Structural, Clone, Copy, Debug)]
pub enum FsEventStep {
    /// Run the watcher's change callback with the event's paths, and wait for
    /// it to return.
    RunCallback,
    /// Push the event's paths onto the invalidation queue, which requests a
    /// rebuild and wakes the event loop.
    EnqueuePaths,
}

/// What a watcher does with one event: its steps, in the order they are
/// carried out.
#[derive(PartialEq, Eq, Clone, Debug)]
pub struct FsEventPlan {
    pub steps: Vec<FsEventStep>,
}

/// The steps for one event: a data change first runs the callback (when the
/// watcher has one), so the next build already sees what it did, and only
/// then queues its paths (when the watcher queues); every other kind of
/// event is ignored.
pub open spec fn spec_fs_steps(kind: FsEventKind, has_callback: bool, enqueue: bool) -> Seq<FsEventStep> {
    if !spec_is_data_change(kind) {
        Seq::empty()
    } else {
        (if has_callback { seq![FsEventStep::RunCallback] } else { Seq::empty() })
            + (if enqueue { seq![FsEventStep::EnqueuePaths] } else { Seq::empty() })
    }
}

/// Whether an event of this kind is a data change.
pub fn is_data_change(kind: FsEventKind) -> (r: bool)
    ensures
        r == spec_is_data_change(kind),
{
    match kind {
        FsEventKind::Create | FsEventKind::Modify | FsEventKind::Remove => true,
        _ => false,
    }
}

/// Route one watcher event: a data change runs the callback (when the
/// watcher has one) before its paths are queued (when the watcher queues);
/// every other kind is ignored.
pub fn plan_fs_event(kind: FsEventKind, has_callback: bool, enqueue: bool) -> (p: FsEventPlan)
    ensures
        p.steps@ == spec_fs_steps(kind, has_callback, enqueue),
{
    let mut steps: Vec<FsEventStep> = Vec::new();
    if is_data_change(kind) {
        if has_callback {
            steps.push(FsEventStep::RunCallback);
        }
        if enqueue {
            steps.push(FsEventStep::EnqueuePaths);
        }
    }
    proof {
        assert(steps@ =~= spec_fs_steps(kind, has_callback, enqueue));
    }
    FsEventPlan { steps }
}

/// One step the client takes for a hot-reload message.
#[derive(PartialEq, Eq, Structural, Clone, Copy, Debug)]
pub enum HotReloadStep {
    /// Queue the message's asset paths for invalidation.
    EnqueueAssets,
    /// Apply the message's jump-table patch, then report the outcome to
    /// [`patch_outcome`].
    ApplyPatch,
}

/// What the client does with one hot-reload message: its steps, in the order
/// they are carried out.
#[derive(PartialEq, Eq, Clone, Debug)]
pub struct HotReloadPlan {
    pub steps: Vec<HotReloadStep>,
}

/// A message is for this process when it names no process or names ours.
pub open spec fn addressed_to(for_pid: Option<u32>, our_pid: u32) -> bool {
    match for_pid {
        Some(target) => target == our_pid,
        None => true,
    }
}

/// The steps for a message: none when it is stamped for another process;
/// otherwise the assets are queued first (when there are any), so the
/// rebuild that follows the patch runs with the caches already invalidated,
/// and then the jump table is applied (when there is one).
pub open spec fn spec_hot_reload_steps(
    for_pid: Option<u32>,
    our_pid: u32,
    asset_count: usize,
    has_jump_table: bool,
) -> Seq<HotReloadStep> {
    if !addressed_to(for_pid, our_pid) {
        Seq::empty()
    } else {
        (if asset_count > 0 { seq![HotReloadStep::EnqueueAssets] } else { Seq::empty() })
            + (if has_jump_table { seq![HotReloadStep::ApplyPatch] } else { Seq::empty() })
    }
}

/// Decide what a hot-reload message asks of this process.
pub fn plan_hot_reload(for_pid: Option<u32>, our_pid: u32, asset_count: usize, has_jump_table: bool)
    -> (p: HotReloadPlan)
    ensures
        p.steps@ == spec_hot_reload_steps(for_pid, our_pid, asset_count, has_jump_table),
{
    let ours = match for_pid {
        Some(target) => target == our_pid,
        None => true,
    };
    let mut steps: Vec<HotReloadStep> = Vec::new();
    if ours {
        if asset_count > 0 {
            steps.push(HotReloadStep::EnqueueAssets);
        }
        if has_jump_table {
            steps.push(HotReloadStep::ApplyPatch);
        }
    }
    proof {
        assert(steps@ =~= spec_hot_reload_steps(for_pid, our_pid, asset_count, has_jump_table));
    }
    HotReloadPlan { steps }
}

/// Record the outcome of applying a patch: only a patch that was applied
/// requests a rebuild. Returns whether the event loop should be woken.
pub fn patch_outcome(state: &mut HotReloadState, applied: bool) -> (wake: bool)
    ensures
        wake == applied,
        final(state)@ == (if applied {
            requested(old(state)@)
        } else {
            old(state)@
        }),
{
    if applied {
        request_rebuild(state);
    }
    applied
}

/// The extension of a path as UTF-8 bytes, `None` when it has none or it is
/// not valid UTF-8.
pub uninterp spec fn path_extension_bytes(p: PathBuf) -> Option<Seq<u8>>;

/// `Path::extension` followed by `OsStr::to_str`, as bytes. The result is a
/// function of the path alone.
#[verifier::external_body]
fn path_extension(p: &PathBuf) -> (r: Option<Vec<u8>>)
    ensures
        match r {
            Some(v) => path_extension_bytes(*p) == Some(v@),
            None => path_extension_bytes(*p) is None,
        },
{
    p.extension().and_then(|e| e.to_str()).map(|e| e.as_bytes().to_vec())
}

/// `path` has an extension equal to one of `extensions`.
pub open spec fn has_listed_extension(path: PathBuf, extensions: Seq<Seq<u8>>) -> bool {
    match path_extension_bytes(path) {
        Some(ext) => extensions.contains(ext),
        None => false,
    }
}

/// Any of `paths` has an extension from `extensions`.
pub open spec fn spec_touches_sources(paths: Seq<PathBuf>, extensions: Seq<Seq<u8>>) -> bool {
    exists|i: int| 0 <= i < paths.len() && #[trigger] has_listed_extension(paths[i], extensions)
}

/// The byte views of a list of string slices.
pub open spec fn str_bytes(strs: Seq<&str>) -> Seq<Seq<u8>> {
    strs.map_values(|s: &str| s.spec_bytes())
}

fn bytes_equal(a: &[u8], b: &[u8]) -> (r: bool)
    ensures
        r == (a@ == b@),
{
    if a.len() != b.len() {
        return false;
    }
    let mut i: usize = 0;
    while i < a.len()
        invariant
            a.len() == b.len(),
            i <= a.len(),
            forall|j: int| 0 <= j < i ==> a@[j] == b@[j],
        decreases a.len() - i,
    {
        if a[i] != b[i] {
            return false;
        }
        i = i + 1;
    }
    assert(a@ =~= b@);
    true
}

fn extension_listed(ext: &[u8], extensions: &[&str]) -> (r: bool)
    ensures
        r == str_bytes(extensions@).contains(ext@),
{
    let mut j: usize = 0;
    while j < extensions.len()
        invariant
            j <= extensions.len(),
            forall|k: int| 0 <= k < j ==> extensions@[k].spec_bytes() != ext@,
        decreases extensions.len() - j,
    {
        if bytes_equal(extensions[j].as_bytes(), ext) {
            assert(str_bytes(extensions@)[j as int] == ext@);
            return true;
        }
        j = j + 1;
    }
    assert forall|k: int| 0 <= k < str_bytes(extensions@).len() implies str_bytes(
        extensions@,
    )[k] != ext@ by {}
    false
}

/// Whether a batch of watcher paths touches a source file, i.e. a file with
/// one of `extensions`.
pub fn touches_sources(paths: &Vec<PathBuf>, extensions: &[&str]) -> (r: bool)
    ensures
        r == spec_touches_sources(paths@, str_bytes(extensions@)),
{
    let mut i: usize = 0;
    while i < paths.len()
        invariant
            i <= paths.len(),
            forall|k: int|
                0 <= k < i ==> !#[trigger] has_listed_extension(paths@[k], str_bytes(extensions@)),
        decreases paths.len() - i,
    {
        match path_extension(&paths[i]) {
            Some(ext) => {
                if extension_listed(ext.as_slice(), extensions) {
                    assert(has_listed_extension(paths@[i as int], str_bytes(extensions@)));
                    return true;
                }
            },
            None => {},
        }
        i = i + 1;
    }
    false
}

/// A rebuild request is seen by exactly one drain: the first drain after a
/// request reports `true`, the next one `false`.
pub proof fn law_rebuild_flag_drains_once(s: HotReloadView)
    ensures
        requested(s).rebuild_pending,
        !rebuild_taken(requested(s)).rebuild_pending,
{
}

/// The invalidation queue hands back exactly the paths pushed since the last
/// drain, in push order, and is empty afterwards.
pub proof fn law_invalidations_fifo(s: HotReloadView, a: Seq<PathBuf>, b: Seq<PathBuf>)
    ensures
        enqueued(enqueued(invalidations_taken(s), a), b).asset_queue == a + b,
        invalidations_taken(enqueued(enqueued(s, a), b)).asset_queue.len() == 0,
{
    assert(Seq::<PathBuf>::empty() + a =~= a);
    assert(a + Seq::<PathBuf>::empty() =~= a);
    assert(Seq::<PathBuf>::empty() + b =~= b);
}

/// Pushing a non-empty batch always leaves a rebuild pending; pushing an
/// empty batch changes nothing.
pub proof fn law_enqueue_requests_rebuild(s: HotReloadView, paths: Seq<PathBuf>)
    ensures
        paths.len() > 0 ==> enqueued(s, paths).rebuild_pending,
        paths.len() == 0 ==> enqueued(s, paths) == s,
{
}

/// One burst of source events starts one settle waiter: once an event has
/// been noted, further events ask for no new waiter until the settle ends,
/// after which the sources-dirty flag is seen by exactly one drain and a
/// rebuild is pending.
pub proof fn law_one_waiter_per_burst(s: HotReloadView, t1: u64, t2: u64)
    ensures
        source_event_noted(s, t1).settling,
        source_event_noted(source_event_noted(s, t1), t2).last_source_event_ms == t2,
        !settle_finished(source_event_noted(s, t1)).settling,
        settle_finished(s).sources_dirty,
        settle_finished(s).rebuild_pending,
        !sources_taken(settle_finished(s)).sources_dirty,
{
}

/// A message stamped for another process asks for nothing.
pub proof fn law_foreign_messages_ignored(target: u32, our_pid: u32, asset_count: usize, has_jump_table: bool)
    requires
        target != our_pid,
    ensures
        spec_hot_reload_steps(Some(target), our_pid, asset_count, has_jump_table).len() == 0,
{
}

/// For a message addressed to this process that carries assets and a
/// patch, the assets are queued before the patch is applied; a failed patch
/// leaves the state as it was, while an applied one requests a rebuild.
pub proof fn law_assets_before_patch(for_pid: Option<u32>, our_pid: u32, asset_count: usize, s: HotReloadView)
    requires
        addressed_to(for_pid, our_pid),
        asset_count > 0,
    ensures
        spec_hot_reload_steps(for_pid, our_pid, asset_count, true) == seq![
            HotReloadStep::EnqueueAssets,
            HotReloadStep::ApplyPatch,
        ],
        requested(s).rebuild_pending,
{
    assert(spec_hot_reload_steps(for_pid, our_pid, asset_count, true) =~= seq![
        HotReloadStep::EnqueueAssets,
        HotReloadStep::ApplyPatch,
    ]);
}

/// A data change runs the watcher's callback before its paths are queued;
/// events that change no data run nothing; a watcher that does not queue
/// (the source watcher) never touches the invalidation queue.
pub proof fn law_callback_before_queue(kind: FsEventKind, has_callback: bool, enqueue: bool)
    ensures
        spec_is_data_change(kind) ==> spec_fs_steps(kind, true, true) == seq![
            FsEventStep::RunCallback,
            FsEventStep::EnqueuePaths,
        ],
        !spec_is_data_change(kind) ==> spec_fs_steps(kind, has_callback, enqueue).len() == 0,
        !spec_fs_steps(kind, has_callback, false).contains(FsEventStep::EnqueuePaths),
{
    assert(spec_fs_steps(kind, true, true) =~= (if spec_is_data_change(kind) {
        seq![FsEventStep::RunCallback, FsEventStep::EnqueuePaths]
    } else {
        Seq::empty()
    }));
    let q = spec_fs_steps(kind, has_callback, false);
    if q.contains(FsEventStep::EnqueuePaths) {
        let i = choose|i: int| 0 <= i < q.len() && q[i] == FsEventStep::EnqueuePaths;
        if spec_is_data_change(kind) && has_callback {
            assert(q =~= seq![FsEventStep::RunCallback]);
        } else {
            assert(q =~= Seq::<FsEventStep>::empty());
        }
    }
}

/// The settle window. A waiter that checks `settle_ms` after its previous
/// check finishes only once the writes have been quiet for `settle_ms`
/// since the last event at `last_ms`, and, when its previous check was too
/// early, no later than `last_ms + 2 * settle_ms`. Noting events and
/// finishing a settle never touch the invalidation queue.
pub proof fn law_settle_window(s: HotReloadView, last_ms: u64, prev_check: u64, check: u64, settle_ms: u64)
    requires
        settle_ms > 0,
        quiet_for(last_ms, prev_check) < settle_ms,
        check == prev_check + settle_ms,
    ensures
        quiet_for(last_ms, check) >= settle_ms ==> last_ms + settle_ms <= check && check < last_ms + 2
            * settle_ms,
        source_event_noted(s, last_ms).asset_queue == s.asset_queue,
        settle_finished(s).asset_queue == s.asset_queue,
{
}


/// What reaches the shared state while source files are being saved: a
/// watcher event at a time, or a check of the settle waiter at a time.
pub ghost enum SettleHappening {
    SourceEvent(u64),
    WaiterCheck(u64),
}

/// When a happening takes place, in wall-clock milliseconds.
pub open spec fn time_of(h: SettleHappening) -> u64 {
    match h {
        SettleHappening::SourceEvent(t) => t,
        SettleHappening::WaiterCheck(t) => t,
    }
}

/// The happening is a watcher event.
pub open spec fn is_event(h: SettleHappening) -> bool {
    h is SourceEvent
}

/// The happening is a check of the settle waiter.
pub open spec fn is_check(h: SettleHappening) -> bool {
    h is WaiterCheck
}

/// Effect of one happening: an event is noted (`note_source_event`), a check
/// is one `settle_poll`.
pub open spec fn happen(s: HotReloadView, h: SettleHappening, settle_ms: u64) -> HotReloadView {
    match h {
        SettleHappening::SourceEvent(t) => source_event_noted(s, t),
        SettleHappening::WaiterCheck(t) => if quiet_for(s.last_source_event_ms, t) >= settle_ms {
            settle_finished(s)
        } else {
            s
        },
    }
}

/// The state after the happenings `hs`, in order.
pub open spec fn run_happenings(s: HotReloadView, hs: Seq<SettleHappening>, settle_ms: u64) -> HotReloadView
    decreases hs.len(),
{
    if hs.len() == 0 {
        s
    } else {
        happen(run_happenings(s, hs.drop_last(), settle_ms), hs.last(), settle_ms)
    }
}

/// Time of the last watcher event among `hs` (0 when there is none).
pub open spec fn last_event_time(hs: Seq<SettleHappening>) -> u64
    decreases hs.len(),
{
    if hs.len() == 0 {
        0
    } else if is_event(hs.last()) {
        time_of(hs.last())
    } else {
        last_event_time(hs.drop_last())
    }
}

/// Happenings come in time order.
#[verifier::opaque]
pub open spec fn in_time_order(hs: Seq<SettleHappening>) -> bool {
    forall|i: int, j: int| 0 <= i <= j < hs.len() ==> time_of(#[trigger] hs[i]) <= time_of(#[trigger] hs[j])
}

/// The burst has no quiet gap of `settle_ms`: every happening before the
/// last event lies less than `settle_ms` after some event at or before it.
#[verifier::opaque]
pub open spec fn no_quiet_gap(hs: Seq<SettleHappening>, settle_ms: u64) -> bool {
    forall|i: int, j: int|
        #![trigger hs[i], is_event(hs[j])]
        0 <= i < j < hs.len() && is_event(hs[j]) ==> exists|e: int|
            0 <= e <= i && #[trigger] is_event(hs[e]) && time_of(hs[i]) < time_of(hs[e]) + settle_ms
}

/// The waiter sleeps `settle_ms` before each check: the first check comes
/// `settle_ms` after the first event, every later one `settle_ms` after an
/// earlier check.
#[verifier::opaque]
pub open spec fn waiter_sleeps_between_checks(hs: Seq<SettleHappening>, settle_ms: u64) -> bool {
    forall|j: int|
        0 <= j < hs.len() && #[trigger] is_check(hs[j]) ==> time_of(hs[j]) == time_of(hs[0])
            + settle_ms || exists|i: int|
            0 <= i < j && #[trigger] is_check(hs[i]) && time_of(hs[j]) == time_of(hs[i]) + settle_ms
}

/// `hs` is one burst of source edits together with the checks of the waiter
/// its first event started: it begins with an event, comes in time order,
/// has no quiet gap of `settle_ms`, and its checks are `settle_ms` apart.
pub open spec fn is_burst_with_waiter(hs: Seq<SettleHappening>, settle_ms: u64) -> bool {
    &&& hs.len() > 0
    &&& is_event(hs[0])
    &&& in_time_order(hs)
    &&& no_quiet_gap(hs, settle_ms)
    &&& waiter_sleeps_between_checks(hs, settle_ms)
}

proof fn lemma_take_step<A>(hs: Seq<A>, m: int)
    requires
        0 <= m < hs.len(),
    ensures
        hs.take(m + 1).drop_last() == hs.take(m),
        hs.take(m + 1).last() == hs[m],
        hs.take(m + 1).len() == m + 1,
{
    assert(hs.take(m + 1).drop_last() =~= hs.take(m));
}

/// The last event time of a prefix is at least the time of every event in it.
proof fn lemma_last_event_at_least(hs: Seq<SettleHappening>, m: int, e: int, settle_ms: u64)
    requires
        is_burst_with_waiter(hs, settle_ms),
        0 <= e < m <= hs.len(),
        is_event(hs[e]),
    ensures
        last_event_time(hs.take(m)) >= time_of(hs[e]),
    decreases m,
{
    lemma_take_step(hs, m - 1);
    if !is_event(hs[m - 1]) {
        lemma_last_event_at_least(hs, m - 1, e, settle_ms);
    } else {
        reveal(in_time_order);
        assert(time_of(hs[e]) <= time_of(hs[m - 1]));
    }
}

/// The last event time of a non-empty prefix is the time of one of its events.
proof fn lemma_last_event_is_an_event(hs: Seq<SettleHappening>, m: int, settle_ms: u64) -> (e: int)
    requires
        is_burst_with_waiter(hs, settle_ms),
        1 <= m <= hs.len(),
    ensures
        0 <= e < m,
        is_event(hs[e]),
        last_event_time(hs.take(m)) == time_of(hs[e]),
    decreases m,
{
    lemma_take_step(hs, m - 1);
    if is_event(hs[m - 1]) {
        m - 1
    } else {
        if m == 1 {
            assert(false);
        }
        lemma_last_event_is_an_event(hs, m - 1, settle_ms)
    }
}

/// Past the last event, a prefix's last event time is the burst's.
proof fn lemma_last_event_of_burst(hs: Seq<SettleHappening>, m: int, settle_ms: u64)
    requires
        is_burst_with_waiter(hs, settle_ms),
        0 <= m <= hs.len(),
        forall|k: int| m <= k < hs.len() ==> !is_event(#[trigger] hs[k]),
    ensures
        last_event_time(hs.take(m)) == last_event_time(hs),
    decreases hs.len() - m,
{
    if m < hs.len() {
        lemma_take_step(hs, m);
        lemma_last_event_of_burst(hs, m + 1, settle_ms);
    } else {
        assert(hs.take(m) =~= hs);
    }
}

/// A check that comes less than `settle_ms` after the burst's last event
/// comes less than `settle_ms` after the last event before it.
proof fn lemma_early_check_is_quiet_too_briefly(hs: Seq<SettleHappening>, m: int, settle_ms: u64)
    requires
        is_burst_with_waiter(hs, settle_ms),
        1 <= m < hs.len(),
        is_check(hs[m]),
        time_of(hs[m]) < last_event_time(hs) + settle_ms,
    ensures
        time_of(hs[m]) < last_event_time(hs.take(m)) + settle_ms,
{
    lemma_take_step(hs, m);
    if forall|k: int| m + 1 <= k < hs.len() ==> !is_event(#[trigger] hs[k]) {
        lemma_last_event_of_burst(hs, m + 1, settle_ms);
    } else {
        let j = choose|j: int| m + 1 <= j < hs.len() && is_event(#[trigger] hs[j]);
        let e = lemma_earlier_event_close(hs, m, j, settle_ms);
        lemma_last_event_at_least(hs, m, e, settle_ms);
    }
}

/// Before a later event, every happening lies less than `settle_ms` after
/// an event at or before it.
proof fn lemma_earlier_event_close(hs: Seq<SettleHappening>, i: int, j: int, settle_ms: u64) -> (e: int)
    requires
        no_quiet_gap(hs, settle_ms),
        0 <= i < j < hs.len(),
        is_event(hs[j]),
    ensures
        0 <= e <= i,
        is_event(hs[e]),
        time_of(hs[i]) < time_of(hs[e]) + settle_ms,
{
    reveal(no_quiet_gap);
    assert(hs[i] == hs[i]);
    choose|e: int| 0 <= e <= i && #[trigger] is_event(hs[e]) && time_of(hs[i]) < time_of(hs[e]) + settle_ms
}

/// The state along the burst: the deadline is the last event so far, the
/// queue is untouched, and while no check has come `settle_ms` after the
/// burst's last event the state is just the noted events.
proof fn lemma_burst_prefix(s: HotReloadView, hs: Seq<SettleHappening>, m: int, settle_ms: u64)
    requires
        is_burst_with_waiter(hs, settle_ms),
        settle_ms > 0,
        1 <= m <= hs.len(),
    ensures
        run_happenings(s, hs.take(m), settle_ms).last_source_event_ms == last_event_time(hs.take(m)),
        run_happenings(s, hs.take(m), settle_ms).asset_queue == s.asset_queue,
        (forall|k: int|
            0 <= k < m && #[trigger] is_check(hs[k]) ==> time_of(hs[k]) < last_event_time(hs)
                + settle_ms) ==> run_happenings(s, hs.take(m), settle_ms) == source_event_noted(
            s,
            last_event_time(hs.take(m)),
        ),
    decreases m,
{
    lemma_take_step(hs, m - 1);
    let cur = hs.take(m);
    let prev = hs.take(m - 1);
    assert(run_happenings(s, cur, settle_ms) == happen(run_happenings(s, prev, settle_ms), hs[m - 1], settle_ms));
    if m == 1 {
        assert(prev =~= Seq::<SettleHappening>::empty());
        assert(run_happenings(s, prev, settle_ms) == s);
    } else {
        lemma_burst_prefix(s, hs, m - 1, settle_ms);
        let early = forall|k: int|
            0 <= k < m && #[trigger] is_check(hs[k]) ==> time_of(hs[k]) < last_event_time(hs)
                + settle_ms;
        if early {
            assert(forall|k: int|
                0 <= k < m - 1 && #[trigger] is_check(hs[k]) ==> time_of(hs[k]) < last_event_time(hs)
                    + settle_ms);
            let p = run_happenings(s, prev, settle_ms);
            assert(p == source_event_noted(s, last_event_time(prev)));
            if is_check(hs[m - 1]) {
                lemma_early_check_is_quiet_too_briefly(hs, m - 1, settle_ms);
                assert(quiet_for(p.last_source_event_ms, time_of(hs[m - 1])) < settle_ms);
                assert(last_event_time(cur) == last_event_time(prev));
            }
        }
    }
}

/// One burst of source edits raises the sources-dirty flag once, in the
/// settle window. Over a burst and the checks of the waiter its first event
/// started (see [`is_burst_with_waiter`]), with `T` the time of the burst's
/// last event:
/// - only the first event starts a waiter; every later one finds one running;
/// - a check ends the settle (raising sources-dirty and requesting a rebuild)
///   exactly when it comes at least `settle_ms` after `T`, so the waiter,
///   which stops at the check that ends the settle, ends it once and never
///   before `T + settle_ms`;
/// - that first ending check comes before `T + 2 * settle_ms`, and until it
///   the state is only the noted events, with the deadline at `T`;
/// - the invalidation queue is never touched.
pub proof fn law_burst_settles_once(s: HotReloadView, hs: Seq<SettleHappening>, settle_ms: u64)
    requires
        settle_ms > 0,
        !s.settling,
        is_burst_with_waiter(hs, settle_ms),
    ensures
        forall|i: int|
            1 <= i < hs.len() && #[trigger] is_event(hs[i]) ==> run_happenings(
                s,
                hs.take(i),
                settle_ms,
            ).settling,
        forall|i: int|
            0 <= i < hs.len() && #[trigger] is_check(hs[i]) ==> (quiet_for(
                run_happenings(s, hs.take(i), settle_ms).last_source_event_ms,
                time_of(hs[i]),
            ) >= settle_ms <==> time_of(hs[i]) >= last_event_time(hs) + settle_ms),
        forall|j: int|
            0 <= j < hs.len() && #[trigger] is_check(hs[j]) && time_of(hs[j]) >= last_event_time(hs)
                + settle_ms && (forall|k: int|
                0 <= k < j && #[trigger] is_check(hs[k]) ==> time_of(hs[k]) < last_event_time(hs)
                    + settle_ms) ==> time_of(hs[j]) < last_event_time(hs) + 2 * settle_ms
                && run_happenings(s, hs.take(j), settle_ms) == source_event_noted(
                s,
                last_event_time(hs),
            ) && happen(run_happenings(s, hs.take(j), settle_ms), hs[j], settle_ms)
                == settle_finished(source_event_noted(s, last_event_time(hs))),
        run_happenings(s, hs, settle_ms).asset_queue == s.asset_queue,
{
    let t_last = last_event_time(hs);
    let first = lemma_last_event_is_an_event(hs, hs.len() as int, settle_ms);
    assert(hs.take(hs.len() as int) =~= hs);
    lemma_burst_prefix(s, hs, hs.len() as int, settle_ms);
    lemma_last_event_at_least(hs, hs.len() as int, 0, settle_ms);
    assert forall|i: int| 1 <= i < hs.len() && #[trigger] is_event(hs[i]) implies run_happenings(
        s,
        hs.take(i),
        settle_ms,
    ).settling by {
        lemma_last_event_at_least(hs, hs.len() as int, i, settle_ms);
        assert forall|k: int| 0 <= k < i && #[trigger] is_check(hs[k]) implies time_of(hs[k])
            < t_last + settle_ms by {
            reveal(in_time_order);
            assert(time_of(hs[k]) <= time_of(hs[i]));
        }
        lemma_burst_prefix(s, hs, i, settle_ms);
    }
    assert forall|i: int| 0 <= i < hs.len() && #[trigger] is_check(hs[i]) implies (quiet_for(
        run_happenings(s, hs.take(i), settle_ms).last_source_event_ms,
        time_of(hs[i]),
    ) >= settle_ms <==> time_of(hs[i]) >= t_last + settle_ms) by {
        assert(i >= 1);
        lemma_burst_prefix(s, hs, i, settle_ms);
        let e = lemma_last_event_is_an_event(hs, i, settle_ms);
        lemma_last_event_at_least(hs, hs.len() as int, e, settle_ms);
        if time_of(hs[i]) < t_last + settle_ms {
            lemma_early_check_is_quiet_too_briefly(hs, i, settle_ms);
        }
    }
    assert forall|j: int|
        0 <= j < hs.len() && #[trigger] is_check(hs[j]) && time_of(hs[j]) >= t_last + settle_ms
            && (forall|k: int|
            0 <= k < j && #[trigger] is_check(hs[k]) ==> time_of(hs[k]) < t_last + settle_ms) implies time_of(hs[j])
        < t_last + 2 * settle_ms && run_happenings(s, hs.take(j), settle_ms) == source_event_noted(
        s,
        t_last,
    ) && happen(run_happenings(s, hs.take(j), settle_ms), hs[j], settle_ms) == settle_finished(
        source_event_noted(s, t_last),
    ) by {
        assert(j >= 1);
        lemma_last_event_at_least(hs, hs.len() as int, 0, settle_ms);
        reveal(waiter_sleeps_between_checks);
        if time_of(hs[j]) != time_of(hs[0]) + settle_ms {
            let i = choose|i: int|
                0 <= i < j && #[trigger] is_check(hs[i]) && time_of(hs[j]) == time_of(hs[i])
                    + settle_ms;
        }
        assert forall|k: int| j <= k < hs.len() implies !is_event(#[trigger] hs[k]) by {
            if is_event(hs[k]) {
                lemma_last_event_at_least(hs, hs.len() as int, k, settle_ms);
                reveal(in_time_order);
                assert(time_of(hs[j]) <= time_of(hs[k]));
            }
        }
        lemma_last_event_of_burst(hs, j, settle_ms);
        lemma_burst_prefix(s, hs, j, settle_ms);
    }
}


/// A batch of paths touches sources exactly when some path in it does: an
/// empty batch never does, a one-path batch does when that path has a listed
/// extension, and joining two batches touches sources exactly when either
/// batch does, so adding paths on either side never loses a touch.
pub proof fn law_any_path_touches_sources(
    a: Seq<PathBuf>,
    b: Seq<PathBuf>,
    p: PathBuf,
    extensions: Seq<Seq<u8>>,
)
    ensures
        !spec_touches_sources(Seq::<PathBuf>::empty(), extensions),
        spec_touches_sources(seq![p], extensions) <==> has_listed_extension(p, extensions),
        spec_touches_sources(a + b, extensions) <==> (spec_touches_sources(a, extensions)
            || spec_touches_sources(b, extensions)),
{
    let ab = a + b;
    if spec_touches_sources(ab, extensions) {
        let i = choose|i: int| 0 <= i < ab.len() && #[trigger] has_listed_extension(ab[i], extensions);
        if i < a.len() {
            assert(ab[i] == a[i]);
        } else {
            assert(ab[i] == b[i - a.len()]);
            assert(has_listed_extension(b[i - a.len()], extensions));
        }
    }
    if spec_touches_sources(a, extensions) {
        let i = choose|i: int| 0 <= i < a.len() && #[trigger] has_listed_extension(a[i], extensions);
        assert(ab[i] == a[i]);
    }
    if spec_touches_sources(b, extensions) {
        let i = choose|i: int| 0 <= i < b.len() && #[trigger] has_listed_extension(b[i], extensions);
        assert(ab[a.len() + i] == b[i]);
    }
    if has_listed_extension(p, extensions) {
        assert(seq![p][0] == p);
    }
}

} // verus!
