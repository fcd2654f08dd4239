//! The registry of tasks.

use std::collections::BTreeMap;
use vstd::prelude::*;

use crate::task::task::Task;

verus! {

/// The tasks of the system, by number. Nothing schedules them yet.
pub struct Scheduler {
    tasks: BTreeMap<usize, Task>,
}

} // verus!
