//! Space and time coordinates (an _event_) of a media file.
use crate::time::Time;
use vstd::prelude::*;

verus! {

/// When a media file was shot, where that is known.
#[derive(Debug, PartialEq, Eq)]
pub struct Event {
    /// The time, with the source that gave it.
    pub time: Option<Time>,
}

} // verus!
