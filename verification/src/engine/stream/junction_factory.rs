//! Configuration of the junctions that route events of one stream.

use vstd::prelude::*;

verus! {

/// How a stream's junction is to be built.
#[derive(Debug, Clone)]
pub struct JunctionConfig {
    pub stream_id: String,
    pub buffer_size: usize,
    /// Asynchronous junctions trade strict event order for throughput.
    pub is_async: bool,
    /// Expected events per second.
    pub expected_throughput: Option<u64>,
    pub subscriber_count: Option<usize>,
}

impl JunctionConfig {
    /// A synchronous junction (events keep their arrival order) with a
    /// buffer of 4096 events and no hints.
    pub fn new(stream_id: String) -> (r: Self)
        ensures
            r.stream_id@ == stream_id@,
            r.buffer_size == 4096,
            !r.is_async,
            r.expected_throughput is None,
            r.subscriber_count is None,
    {
        JunctionConfig {
            stream_id,
            buffer_size: 4096,
            is_async: false,
            expected_throughput: None,
            subscriber_count: None,
        }
    }

    pub fn with_buffer_size(self, size: usize) -> (r: Self)
        ensures
            r.stream_id@ == self.stream_id@,
            r.buffer_size == size,
            r.is_async == self.is_async,
            r.expected_throughput == self.expected_throughput,
            r.subscriber_count == self.subscriber_count,
    {
        let mut c = self;
        c.buffer_size = size;
        c
    }

    pub fn with_async(self, async_mode: bool) -> (r: Self)
        ensures
            r.stream_id@ == self.stream_id@,
            r.buffer_size == self.buffer_size,
            r.is_async == async_mode,
            r.expected_throughput == self.expected_throughput,
            r.subscriber_count == self.subscriber_count,
    {
        let mut c = self;
        c.is_async = async_mode;
        c
    }

    pub fn with_expected_throughput(self, throughput: u64) -> (r: Self)
        ensures
            r.stream_id@ == self.stream_id@,
            r.buffer_size == self.buffer_size,
            r.is_async == self.is_async,
            r.expected_throughput == Some(throughput),
            r.subscriber_count == self.subscriber_count,
    {
        let mut c = self;
        c.expected_throughput = Some(throughput);
        c
    }

    pub fn with_subscriber_count(self, count: usize) -> (r: Self)
        ensures
            r.stream_id@ == self.stream_id@,
            r.buffer_size == self.buffer_size,
            r.is_async == self.is_async,
            r.expected_throughput == self.expected_throughput,
            r.subscriber_count == Some(count),
    {
        let mut c = self;
        c.subscriber_count = Some(count);
        c
    }
}

} // verus!
