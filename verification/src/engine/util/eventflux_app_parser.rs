//! Decisions taken while an application's definitions are turned into
//! runtime parts.

use vstd::prelude::*;
use crate::engine::config::stream_config::FlatConfig;
use crate::engine::stream::junction_factory::JunctionConfig;
use crate::number::{parse_unsigned_spec, parse_usize, parse_u64};
use crate::text::{eq_ignore_ascii_case, eq_ignore_ascii_case_spec};

verus! {

/// The value a stream's `WITH` clause sets for `key`, if it has a clause
/// and the clause sets the key.
pub open spec fn with_value(with_config: Option<&FlatConfig>, key: Seq<char>) -> Option<Seq<char>> {
    match with_config {
        Some(c) => if c@.contains_key(key) { Some(c@[key].0) } else { None },
        None => None,
    }
}

/// The junction buffer size: `async.buffer_size` where it reads as a
/// `usize`, else `default_size`.
pub open spec fn junction_buffer_size(with_config: Option<&FlatConfig>, default_size: usize) -> int {
    match with_value(with_config, "async.buffer_size"@) {
        Some(t) => match parse_unsigned_spec(t, usize::MAX as int) {
            Some(n) => n,
            None => default_size as int,
        },
        None => default_size as int,
    }
}

/// The worker count that `async.workers` sets, where it reads as a `u64`.
pub open spec fn junction_workers(with_config: Option<&FlatConfig>) -> Option<int> {
    match with_value(with_config, "async.workers"@) {
        Some(t) => parse_unsigned_spec(t, u64::MAX as int),
        None => None,
    }
}

/// Whether `async.enabled` is `true`, in any letter case.
pub open spec fn junction_async_enabled(with_config: Option<&FlatConfig>) -> bool {
    match with_value(with_config, "async.enabled"@) {
        Some(t) => eq_ignore_ascii_case_spec(t, "true"@),
        None => false,
    }
}

/// Builds an application's runtime parts from its definitions.
pub struct EventFluxAppParser;

impl EventFluxAppParser {
    /// The junction configuration of stream `stream_id`: the application's
    /// buffer size and default async mode, overridden by the stream's `WITH`
    /// clause: `async.buffer_size` sets the buffer size, `async.workers`
    /// an expected throughput of 10,000 events per second per worker, and
    /// `async.enabled = true` makes the junction asynchronous. Values that
    /// do not read as numbers are ignored.
    pub fn stream_junction_config(
        stream_id: String,
        buffer_size: usize,
        default_async: bool,
        with_config: Option<&FlatConfig>,
    ) -> (r: JunctionConfig)
        requires
            junction_workers(with_config) matches Some(w) ==> w * 10000 <= u64::MAX,
        ensures
            r.stream_id@ == stream_id@,
            r.buffer_size == junction_buffer_size(with_config, buffer_size),
            r.is_async == (default_async || junction_async_enabled(with_config)),
            r.expected_throughput == (match junction_workers(with_config) {
                Some(w) => Some((w * 10000) as u64),
                None => None,
            }),
            r.subscriber_count is None,
    {
        let mut config = JunctionConfig::new(stream_id).with_buffer_size(buffer_size).with_async(default_async);
        if let Some(wc) = with_config {
            if let Some(size_text) = wc.get("async.buffer_size") {
                if let Some(size) = parse_usize(size_text.as_str()) {
                    config = config.with_buffer_size(size);
                }
            }
            if let Some(workers_text) = wc.get("async.workers") {
                if let Some(workers) = parse_u64(workers_text.as_str()) {
                    config = config.with_expected_throughput(workers * 10000);
                }
            }
            if let Some(async_text) = wc.get("async.enabled") {
                if eq_ignore_ascii_case(async_text.as_str(), "true") {
                    config = config.with_async(true);
                }
            }
        }
        config
    }
}

} // verus!
