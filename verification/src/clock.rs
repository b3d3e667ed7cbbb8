//! The one window onto the wall clock: the local calendar facts the
//! environment engine keys its memoization and penalties on.

use vstd::prelude::*;

use chrono::Datelike;

use crate::environment::DateInfo;

verus! {

/// Relies on chrono's `Local::now` and its `Datelike` accessors: `month`
/// runs 1 to 12, `day` 1 to 31, `number_from_monday` 1 to 7; `timestamp`
/// is the unix second. Nothing is assumed about which moment comes back.
#[verifier::external_body]
pub(crate) fn now_parts() -> (r: DateInfo)
    ensures
        r.wf(),
{
    let now = chrono::Local::now();
    DateInfo {
        year: now.year(),
        month: now.month() as u8,
        day: now.day() as u8,
        weekday: now.weekday().number_from_monday() as u8,
        secs: now.timestamp(),
    }
}

} // verus!
