//! The monitor capture backend.

use vstd::prelude::*;

verus! {

/// The monitor-side capture backend. Enumeration and session opening run in
/// the embedding shell against the platform's display API; the handle-free
/// rules of the library need no state here.
#[derive(Clone, Copy)]
pub struct MonitorCapture;

impl MonitorCapture {
    /// A fresh monitor backend.
    pub fn new() -> (r: MonitorCapture) {
        MonitorCapture
    }
}

} // verus!
