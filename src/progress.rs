//! When and what to report while the pixels of a frame complete.
use vstd::prelude::*;

verus! {

/// How many completed pixels lie between two reports: a hundredth of the
/// frame, and at least one.
pub open spec fn report_interval(total: u32) -> int {
    if total / 100 == 0 {
        1
    } else {
        (total / 100) as int
    }
}

/// Given the number of pixels completed before the current one and the
/// number of pixels in the frame, returns the whole percentage to report, or
/// `None` where no report is due. A report is due each time the count reaches
/// a multiple of a hundredth of the frame; an empty frame reports nothing.
pub fn progress_report(completed: u32, total: u32) -> (r: Option<u64>)
    ensures
        total == 0 ==> r is None,
        total > 0 ==> (r is Some <==> completed as int % report_interval(total) == 0),
        r matches Some(p) ==> p == completed as int * 100 / total as int,
{
    if total == 0 {
        return None;
    }
    let every: u32 = if total / 100 == 0 {
        1
    } else {
        total / 100
    };
    if completed % every == 0 {
        Some((completed as u64) * 100 / (total as u64))
    } else {
        None
    }
}

} // verus!
