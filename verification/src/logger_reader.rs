//! What a sink must offer to be registered with the logger.

use crate::log_event::{MyLogEvent, MyLogEventModel};
use std::sync::Arc;
use vstd::prelude::*;

verus! {

/// A sink that takes in every event that is logged.
pub trait MyLoggerReader {
    /// The invariant of the reader. A reader that says nothing has none.
    open spec fn reader_wf(&self) -> bool {
        true
    }

    /// What it means for this reader to have taken `event` in since it was
    /// `before`. A reader that says nothing claims nothing.
    open spec fn has_taken(&self, before: &Self, event: MyLogEventModel) -> bool {
        true
    }

    /// Takes in one event. Must not wait for the event to be delivered.
    fn write_log(&mut self, log_event: Arc<MyLogEvent>)
        requires
            old(self).reader_wf(),
        ensures
            final(self).reader_wf(),
            final(self).has_taken(old(self), log_event@),
    ;

    /// Whether everything that was taken in has been dealt with.
    fn has_no_events(&self) -> bool
        requires
            self.reader_wf(),
    ;
}

} // verus!
