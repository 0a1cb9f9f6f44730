//! The one place where the engine touches the wall clock: creation
//! timestamps in the `YYYY-MM-DD HH:MM:SS` shape come from here.

use vstd::prelude::*;

verus! {

/// Relies on chrono's `Local::now` and `DateTime::format` with the fixed
/// layout `%Y-%m-%d %H:%M:%S`: the current local time rendered as
/// `YYYY-MM-DD HH:MM:SS`. The result depends on the clock, so beyond being
/// non-empty nothing is promised about it; callers state what holds
/// whatever string comes back. `Local::now` aborts when the system clock
/// sits before the Unix epoch — an environmental failure outside any
/// input's control.
#[verifier::external_body]
pub fn now_timestamp() -> (r: String)
    ensures
        r@.len() > 0,
{
    chrono::Local::now().format("%Y-%m-%d %H:%M:%S").to_string()
}

} // verus!
