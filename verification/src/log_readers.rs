//! The registry of the readers, with the parameters of the process that the
//! readers attach to what they ship.

use crate::log_event::{ContextModel, MyLogEvent};
use crate::logger_reader::MyLoggerReader;
use crate::populated_params::PopulatedParams;
use std::sync::Arc;
use vstd::prelude::*;

verus! {

/// `Arc::clone` of the standard library: another pointer to the same event.
#[verifier::external_body]
pub(crate) fn share(log_event: &Arc<MyLogEvent>) -> (shared: Arc<MyLogEvent>)
    ensures
        shared == *log_event,
{
    log_event.clone()
}

/// The registered readers and the parameters of the process.
pub struct LogReaders<R: MyLoggerReader> {
    readers: Vec<R>,
    populated_params: PopulatedParams,
}

impl<R: MyLoggerReader> LogReaders<R> {
    /// The registered readers, in the order of their registration.
    pub closed spec fn readers(&self) -> Seq<R> {
        self.readers@
    }

    /// The parameters of the process.
    pub closed spec fn params(&self) -> ContextModel {
        self.populated_params@
    }

    /// Every registered reader is valid.
    pub open spec fn wf(&self) -> bool {
        forall|i: int| 0 <= i < self.readers().len() ==> (#[trigger] self.readers()[i]).reader_wf()
    }

    pub fn new(populated_params: Vec<(String, String)>) -> (registry: Self)
        ensures
            registry.readers().len() == 0,
            registry.params() == populated_params.deep_view(),
            registry.wf(),
    {
        Self { readers: Vec::new(), populated_params: PopulatedParams::new(populated_params) }
    }

    pub fn populate_params(&mut self, key: String, value: String)
        ensures
            final(self).params() == old(self).params().push((key@, value@)),
            final(self).readers() == old(self).readers(),
    {
        self.populated_params.push(key, value);
    }

    pub fn register_reader(&mut self, reader: R)
        ensures
            final(self).readers() == old(self).readers().push(reader),
            final(self).params() == old(self).params(),
    {
        self.readers.push(reader);
    }

    pub fn get_readers(&self) -> (readers: &[R])
        ensures
            readers@ == self.readers(),
    {
        self.readers.as_slice()
    }

    pub fn get_populated_params(&self) -> (params: &PopulatedParams)
        ensures
            params@ == self.params(),
    {
        &self.populated_params
    }

    /// Hands the event to every registered reader, in the order of their
    /// registration.
    pub fn write_log(&mut self, log_event: &Arc<MyLogEvent>)
        requires
            old(self).wf(),
        ensures
            final(self).wf(),
            final(self).params() == old(self).params(),
            final(self).readers().len() == old(self).readers().len(),
            forall|i: int|
                0 <= i < old(self).readers().len() ==> (#[trigger] final(self).readers()[i]).has_taken(
                    &old(self).readers()[i],
                    log_event@,
                ),
    {
        let mut i: usize = 0;
        while i < self.readers.len()
            invariant
                i <= self.readers.len(),
                self.populated_params == old(self).populated_params,
                self.readers@.len() == old(self).readers@.len(),
                forall|j: int| 0 <= j < self.readers@.len() ==> (#[trigger] self.readers@[j]).reader_wf(),
                forall|j: int|
                    0 <= j < i ==> (#[trigger] self.readers@[j]).has_taken(
                        &old(self).readers@[j],
                        log_event@,
                    ),
                forall|j: int|
                    i <= j < self.readers@.len() ==> #[trigger] self.readers@[j] == old(
                        self,
                    ).readers@[j],
            decreases self.readers.len() - i,
        {
            let event = share(log_event);
            self.readers[i].write_log(event);
            i += 1;
        }
    }
}

} // verus!
