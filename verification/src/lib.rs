//! Verified core of a website-uptime monitor.
//!
//! The library holds the logic of the monitor: the status store that maps each
//! site to its latest probe outcome, the poll cycle that merges probe results
//! and renders reports, the notification decision, and the scheduler's
//! next-fire arithmetic. Network probes, the HTTP surface and the alert
//! transport live outside the library and hand it plain values.

use vstd::prelude::*;
use vstd::string::StringExecFns;

pub mod config;
pub mod cycle;
pub mod notify;
pub mod report;
pub mod schedule;
pub mod sites;
pub mod store;
pub mod text;

verus! {

/// The greeting of the root endpoint.
pub open spec fn greeting_text() -> Seq<char> {
    seq!['H', 'e', 'l', 'l', 'o', ',', ' ', 'w', 'o', 'r', 'l', 'd', '!']
}

/// The plain-text greeting served at the root endpoint; no side effects.
pub fn greeting() -> (r: String)
    ensures
        r@ == greeting_text(),
{
    let r = String::from_str("Hello, world!");
    proof {
        reveal_strlit("Hello, world!");
        assert(r@ =~= greeting_text());
    }
    r
}

} // verus!
