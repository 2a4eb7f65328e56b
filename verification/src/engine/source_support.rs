//! Error-handling options of sources, gathered from their properties.

use vstd::prelude::*;
use crate::engine::config::stream_config::{FlatConfig, PropertySource};
use crate::property_map::{PropertyMap, keys_distinct, map_of, pair_views, lemma_map_of_dom};
use crate::text::{has_prefix, starts_with};

verus! {

pub open spec fn error_prefix() -> Seq<char> {
    "error."@
}

/// The `error.*` properties, each as set from a SQL `WITH` clause.
pub open spec fn error_settings(p: Map<Seq<char>, Seq<char>>) -> Map<Seq<char>, (Seq<char>, PropertySource)> {
    Map::new(
        |k: Seq<char>| p.dom().contains(k) && has_prefix(k, error_prefix()),
        |k: Seq<char>| (p[k], PropertySource::SqlWith),
    )
}

/// Collects the error-handling properties of a source or sink.
pub struct ErrorConfigBuilder {
    config: FlatConfig,
}

impl ErrorConfigBuilder {
    /// The collected settings.
    pub closed spec fn settings(&self) -> Map<Seq<char>, (Seq<char>, PropertySource)> {
        self.config@
    }

    /// Keeps the properties whose keys start with `error.`.
    pub fn from_properties(properties: &PropertyMap) -> (r: Self)
        ensures
            r.settings() == error_settings(properties@),
    {
        let entries = properties.entries();
        let ghost pairs = properties.pairs();
        let mut config = FlatConfig::new();
        let mut i: usize = 0;
        assert(error_settings(map_of(pairs.take(0))) =~= Map::<Seq<char>, (Seq<char>, PropertySource)>::empty());
        while i < entries.len()
            invariant
                i <= entries@.len(),
                pair_views(entries@) == pairs,
                keys_distinct(pairs),
                config@ == error_settings(map_of(pairs.take(i as int))),
            decreases entries@.len() - i,
        {
            let ghost k = entries@[i as int].0@;
            let ghost v = entries@[i as int].1@;
            proof {
                assert(pair_views(entries@)[i as int] == (k, v));
                let t = pairs.take(i + 1);
                assert(t.drop_last() =~= pairs.take(i as int));
                assert(map_of(t) == map_of(pairs.take(i as int)).insert(k, v));
                lemma_map_of_dom(pairs.take(i as int), k);
                assert forall|j: int| 0 <= j < pairs.take(i as int).len() implies pairs.take(i as int)[j].0 != k by {
                    assert(pairs[j].0 != pairs[i as int].0);
                }
                assert(!map_of(pairs.take(i as int)).dom().contains(k));
            }
            if starts_with(entries[i].0.as_str(), "error.") {
                config.set(entries[i].0.as_str(), entries[i].1.as_str(), PropertySource::SqlWith);
                proof {
                    assert(config@ =~= error_settings(map_of(pairs.take(i + 1))));
                }
            } else {
                proof {
                    assert(config@ =~= error_settings(map_of(pairs.take(i + 1))));
                }
            }
            i = i + 1;
        }
        assert(pairs.take(entries@.len() as int) =~= pairs);
        ErrorConfigBuilder { config }
    }

    /// Whether an error strategy is configured.
    pub fn is_configured(&self) -> (r: bool)
        ensures
            r == self.settings().contains_key("error.strategy"@),
    {
        self.config.contains("error.strategy")
    }
}

} // verus!
