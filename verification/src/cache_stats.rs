//! The frame counter behind the periodic cache-statistics report.

use vstd::prelude::*;

verus! {

/// The report is written once every this many frames.
pub const STATS_INTERVAL: u64 = 300;

/// Whether frame number `n` (counting from 1) writes the report.
pub open spec fn spec_reports_on_frame(n: int) -> bool {
    n % (STATS_INTERVAL as int) == 1
}

/// Count one more frame. Returns whether the statistics are reported on
/// this frame: the first frame and every 300th after it.
pub fn stats_frame_tick(frame_count: &mut u64) -> (report: bool)
    requires
        *old(frame_count) < u64::MAX,
    ensures
        *final(frame_count) == *old(frame_count) + 1,
        report == spec_reports_on_frame(*final(frame_count) as int),
{
    *frame_count = *frame_count + 1;
    *frame_count % STATS_INTERVAL == 1
}

/// Whether frame `n + k` reports.
pub open spec fn reports_at(n: int, k: int) -> bool {
    (n + k) % (STATS_INTERVAL as int) == 1
}

/// Starting from zero, the report fires on frames 1, 301, 601, ...: among
/// any 300 consecutive frames exactly one reports.
pub proof fn law_stats_reported_once_per_interval(n: u64)
    requires
        n % STATS_INTERVAL == 1,
    ensures
        forall|k: int| 1 <= k < STATS_INTERVAL ==> !#[trigger] reports_at(n as int, k),
        reports_at(n as int, STATS_INTERVAL as int),
{
}


/// The first frame reports; after a reporting frame the next 299 frames do
/// not and the 300th does; so of any 300 consecutive frames exactly one
/// reports.
pub proof fn law_report_every_300_frames(n: int)
    requires
        n >= 1,
    ensures
        spec_reports_on_frame(1),
        spec_reports_on_frame(n) ==> (forall|k: int| 1 <= k < 300 ==> !#[trigger] spec_reports_on_frame(n + k))
            && spec_reports_on_frame(n + 300),
        spec_reports_on_frame(n) <==> spec_reports_on_frame(n + 300),
{
}

} // verus!
