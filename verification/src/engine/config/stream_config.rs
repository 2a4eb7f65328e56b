//! Stream configuration with layered property resolution.
//!
//! Properties come from several sources, ordered by priority (low to high):
//! Rust defaults, the application section of a TOML file, a stream section of
//! a TOML file, and the SQL `WITH` clause. A property set from one source is
//! replaced only by a later setting from a source of strictly higher priority.

use vstd::prelude::*;
use crate::property_map::{
    map_of, keys_distinct, string_views, lemma_map_of_dom, lemma_map_of_at, lemma_map_of_absent,
    lemma_map_of_update, lemma_map_of_finite_len, lemma_string_views_push, PropertyMap,
};
use crate::text::{str_eq, has_prefix, starts_with, owned, concat, to_lowercase, lowercase, is_ascii_text, ascii_lowercase};

verus! {

/// Where a property value came from.
#[derive(Debug, Clone, Copy, PartialEq, Eq, Structural, Hash)]
pub enum PropertySource {
    /// Built-in default (priority 0).
    RustDefault,
    /// TOML `[application]` section (priority 1).
    TomlApplication,
    /// TOML `[streams.StreamName]` section (priority 2).
    TomlStream,
    /// SQL `WITH` clause (priority 3).
    SqlWith,
}

impl PropertySource {
    pub open spec fn rank(self) -> u8 {
        match self {
            PropertySource::RustDefault => 0,
            PropertySource::TomlApplication => 1,
            PropertySource::TomlStream => 2,
            PropertySource::SqlWith => 3,
        }
    }

    /// Numeric priority; a higher number wins.
    pub fn priority(&self) -> (r: u8)
        ensures
            r == self.rank(),
    {
        match self {
            PropertySource::RustDefault => 0,
            PropertySource::TomlApplication => 1,
            PropertySource::TomlStream => 2,
            PropertySource::SqlWith => 3,
        }
    }

    /// A human-readable name of the source.
    pub fn description(&self) -> (r: &'static str)
        ensures
            *self == PropertySource::RustDefault ==> r@ == "Rust default"@,
            *self == PropertySource::TomlApplication ==> r@ == "TOML [application]"@,
            *self == PropertySource::TomlStream ==> r@ == "TOML [streams.StreamName]"@,
            *self == PropertySource::SqlWith ==> r@ == "SQL WITH clause"@,
    {
        match self {
            PropertySource::RustDefault => "Rust default",
            PropertySource::TomlApplication => "TOML [application]",
            PropertySource::TomlStream => "TOML [streams.StreamName]",
            PropertySource::SqlWith => "SQL WITH clause",
        }
    }
}

/// The configuration that results from setting `key` to `value` from `source`:
/// an existing value stays when its source has an equal or higher priority.
pub open spec fn set_spec(
    m: Map<Seq<char>, (Seq<char>, PropertySource)>,
    key: Seq<char>,
    value: Seq<char>,
    source: PropertySource,
) -> Map<Seq<char>, (Seq<char>, PropertySource)> {
    if m.contains_key(key) && m[key].1.rank() >= source.rank() {
        m
    } else {
        m.insert(key, (value, source))
    }
}

/// The configuration that results from merging `b` into `a`: a key of `b` takes
/// `b`'s value when `a` lacks it or holds it from a source of lower priority.
pub open spec fn merge_spec(
    a: Map<Seq<char>, (Seq<char>, PropertySource)>,
    b: Map<Seq<char>, (Seq<char>, PropertySource)>,
) -> Map<Seq<char>, (Seq<char>, PropertySource)> {
    Map::new(
        |k: Seq<char>| a.contains_key(k) || b.contains_key(k),
        |k: Seq<char>|
            if b.contains_key(k) && (!a.contains_key(k) || a[k].1.rank() < b[k].1.rank()) {
                b[k]
            } else {
                a[k]
            },
    )
}

/// The views of configuration entries `(key, value, source)`.
pub open spec fn entry_views(s: Seq<(String, String, PropertySource)>) -> Seq<(Seq<char>, (Seq<char>, PropertySource))> {
    s.map_values(|e: (String, String, PropertySource)| (e.0@, (e.1@, e.2)))
}

proof fn lemma_entry_views_push(s: Seq<(String, String, PropertySource)>, x: (String, String, PropertySource))
    ensures
        entry_views(s.push(x)) == entry_views(s).push((x.0@, (x.1@, x.2))),
{
    assert(entry_views(s.push(x)) =~= entry_views(s).push((x.0@, (x.1@, x.2))));
}

/// A flat key-value configuration that records where each value came from.
#[derive(Debug)]
pub struct FlatConfig {
    entries: Vec<(String, String, PropertySource)>,
}

impl FlatConfig {
    /// The entries, keyed by their key's characters.
    pub closed spec fn pairs(&self) -> Seq<(Seq<char>, (Seq<char>, PropertySource))> {
        entry_views(self.entries@)
    }

    #[verifier::type_invariant]
    closed spec fn inv(&self) -> bool {
        keys_distinct(self.pairs())
    }

    /// The keys in the order in which they were first set.
    pub closed spec fn key_seq(&self) -> Seq<Seq<char>> {
        self.pairs().map_values(|e: (Seq<char>, (Seq<char>, PropertySource))| e.0)
    }

    /// The values alone.
    pub open spec fn values(&self) -> Map<Seq<char>, Seq<char>> {
        self@.map_values(|e: (Seq<char>, PropertySource)| e.0)
    }
}

impl View for FlatConfig {
    type V = Map<Seq<char>, (Seq<char>, PropertySource)>;

    closed spec fn view(&self) -> Map<Seq<char>, (Seq<char>, PropertySource)> {
        map_of(self.pairs())
    }
}

impl FlatConfig {
    /// An empty configuration.
    pub fn new() -> (c: Self)
        ensures
            c@ == Map::<Seq<char>, (Seq<char>, PropertySource)>::empty(),
    {
        let c = FlatConfig { entries: Vec::new() };
        proof {
            assert(c.pairs() =~= Seq::<(Seq<char>, (Seq<char>, PropertySource))>::empty());
        }
        c
    }

    /// An empty configuration; the capacity is a hint only.
    pub fn with_capacity(capacity: usize) -> (c: Self)
        ensures
            c@ == Map::<Seq<char>, (Seq<char>, PropertySource)>::empty(),
    {
        let c = FlatConfig { entries: Vec::new() };
        proof {
            assert(c.pairs() =~= Seq::<(Seq<char>, (Seq<char>, PropertySource))>::empty());
        }
        c
    }

    fn position(&self, key: &str) -> (r: Option<usize>)
        ensures
            r matches Some(i) ==> i < self.pairs().len() && self.pairs()[i as int].0 == key@
                && self@.contains_key(key@) && self@[key@] == self.pairs()[i as int].1,
            r is None ==> !self@.contains_key(key@),
    {
        proof {
            use_type_invariant(self);
        }
        let mut i: usize = 0;
        while i < self.entries.len()
            invariant
                i <= self.entries@.len(),
                keys_distinct(self.pairs()),
                forall|j: int| 0 <= j < i ==> self.pairs()[j].0 != key@,
            decreases self.entries@.len() - i,
        {
            if str_eq(self.entries[i].0.as_str(), key) {
                proof {
                    lemma_map_of_at(self.pairs(), i as int);
                }
                return Some(i);
            }
            i = i + 1;
        }
        proof {
            lemma_map_of_absent(self.pairs(), key@);
        }
        None
    }

    /// Sets `key` to `value` from `source`, unless the key already holds a value
    /// from a source of equal or higher priority.
    pub fn set(&mut self, key: &str, value: &str, source: PropertySource)
        ensures
            final(self)@ == set_spec(old(self)@, key@, value@, source),
    {
        proof {
            use_type_invariant(&*self);
        }
        match self.position(key) {
            Some(i) => {
                if self.entries[i].2.priority() >= source.priority() {
                    return;
                }
                let ghost old_pairs = self.pairs();
                let k = owned(key);
                let v = owned(value);
                let mut entries: Vec<(String, String, PropertySource)> = Vec::new();
                std::mem::swap(&mut entries, &mut self.entries);
                entries.set(i, (k, v, source));
                proof {
                    assert(entry_views(entries@) =~= old_pairs.update(i as int, (old_pairs[i as int].0, (value@, source))));
                    lemma_map_of_update(old_pairs, i as int, (value@, source));
                }
                self.entries = entries;
            },
            None => {
                let ghost old_pairs = self.pairs();
                let k = owned(key);
                let v = owned(value);
                let mut entries: Vec<(String, String, PropertySource)> = Vec::new();
                std::mem::swap(&mut entries, &mut self.entries);
                proof {
                    lemma_map_of_dom(old_pairs, key@);
                }
                entries.push((k, v, source));
                proof {
                    assert(entry_views(entries@) =~= old_pairs.push((key@, (value@, source))));
                    assert(entry_views(entries@).drop_last() =~= old_pairs);
                }
                self.entries = entries;
            },
        }
    }

    /// The value of `key`.
    pub fn get(&self, key: &str) -> (r: Option<&String>)
        ensures
            r matches Some(v) ==> self@.contains_key(key@) && v@ == self@[key@].0,
            r is None ==> !self@.contains_key(key@),
    {
        match self.position(key) {
            Some(i) => Some(&self.entries[i].1),
            None => None,
        }
    }

    /// The value of `key` together with its source.
    pub fn get_with_source(&self, key: &str) -> (r: Option<(&String, PropertySource)>)
        ensures
            r matches Some(p) ==> self@.contains_key(key@) && p.0@ == self@[key@].0 && p.1 == self@[key@].1,
            r is None ==> !self@.contains_key(key@),
    {
        match self.position(key) {
            Some(i) => Some((&self.entries[i].1, self.entries[i].2)),
            None => None,
        }
    }

    /// Whether `key` is set.
    pub fn contains(&self, key: &str) -> (r: bool)
        ensures
            r == self@.contains_key(key@),
    {
        match self.position(key) {
            Some(_) => true,
            None => false,
        }
    }

    /// The keys, in the order in which they were first set.
    pub fn keys(&self) -> (r: Vec<String>)
        ensures
            string_views(r@) == self.key_seq(),
            self.key_seq().no_duplicates(),
            forall|k: Seq<char>| self@.contains_key(k) <==> self.key_seq().contains(k),
    {
        proof {
            use_type_invariant(self);
            assert forall|k: Seq<char>| self@.contains_key(k) <==> self.key_seq().contains(k) by {
                lemma_map_of_dom(self.pairs(), k);
                if self.key_seq().contains(k) {
                    let i = choose|i: int| 0 <= i < self.key_seq().len() && self.key_seq()[i] == k;
                    assert(self.pairs()[i].0 == k);
                }
                if self@.contains_key(k) {
                    let i = choose|i: int| 0 <= i < self.pairs().len() && self.pairs()[i].0 == k;
                    assert(self.key_seq()[i] == k);
                }
            }
        }
        let mut r: Vec<String> = Vec::new();
        let mut i: usize = 0;
        while i < self.entries.len()
            invariant
                i <= self.entries@.len(),
                string_views(r@) == self.key_seq().subrange(0, i as int),
            decreases self.entries@.len() - i,
        {
            let ghost old_r = r@;
            let k = self.entries[i].0.clone();
            r.push(k);
            proof {
                lemma_string_views_push(old_r, k);
                assert(self.key_seq().subrange(0, i + 1) =~= self.key_seq().subrange(0, i as int).push(self.key_seq()[i as int]));
            }
            i = i + 1;
        }
        proof {
            assert(self.key_seq().subrange(0, i as int) =~= self.key_seq());
        }
        r
    }

    /// The values alone, as a property map.
    pub fn properties(&self) -> (r: PropertyMap)
        ensures
            r@ == self.values(),
    {
        proof {
            use_type_invariant(self);
        }
        let mut r = PropertyMap::new();
        let mut i: usize = 0;
        while i < self.entries.len()
            invariant
                i <= self.entries@.len(),
                keys_distinct(self.pairs()),
                r@ == self.values().restrict(Set::new(|k: Seq<char>| exists|j: int| 0 <= j < i && self.pairs()[j].0 == k)),
            decreases self.entries@.len() - i,
        {
            let k = self.entries[i].0.clone();
            let v = self.entries[i].1.clone();
            proof {
                lemma_map_of_at(self.pairs(), i as int);
            }
            r.insert(k, v);
            proof {
                let s_old = Set::new(|k2: Seq<char>| exists|j: int| 0 <= j < i && self.pairs()[j].0 == k2);
                let s_new = Set::new(|k2: Seq<char>| exists|j: int| 0 <= j < i + 1 && self.pairs()[j].0 == k2);
                assert forall|k2: Seq<char>| s_new.contains(k2) <==> (s_old.contains(k2) || k2 == k@) by {
                    if s_new.contains(k2) {
                        let j = choose|j: int| 0 <= j < i + 1 && self.pairs()[j].0 == k2;
                        if j < i {
                            assert(s_old.contains(k2));
                        }
                    }
                    if s_old.contains(k2) {
                        let j = choose|j: int| 0 <= j < i && self.pairs()[j].0 == k2;
                        assert(0 <= j < i + 1 && self.pairs()[j].0 == k2);
                    }
                    if k2 == k@ {
                        assert(self.pairs()[i as int].0 == k2);
                    }
                }
                assert(r@ =~= self.values().restrict(s_new));
            }
            i = i + 1;
        }
        proof {
            let s_all = Set::new(|k2: Seq<char>| exists|j: int| 0 <= j < i && self.pairs()[j].0 == k2);
            assert forall|k2: Seq<char>| s_all.contains(k2) <==> self@.contains_key(k2) by {
                lemma_map_of_dom(self.pairs(), k2);
            }
            assert(r@ =~= self.values());
        }
        r
    }

    /// Merges `other` into this configuration: each of its properties is set
    /// from its own source, so priorities decide as in `set`.
    pub fn merge(&mut self, other: &FlatConfig)
        ensures
            final(self)@ == merge_spec(old(self)@, other@),
    {
        proof {
            use_type_invariant(other);
        }
        let ghost start = self@;
        let mut i: usize = 0;
        while i < other.entries.len()
            invariant
                i <= other.entries@.len(),
                keys_distinct(other.pairs()),
                self@ == merge_spec(start, map_of(other.pairs().subrange(0, i as int))),
            decreases other.entries@.len() - i,
        {
            let ghost prefix = other.pairs().subrange(0, i as int);
            let ghost before = self@;
            let k = other.entries[i].0.as_str();
            let v = other.entries[i].1.as_str();
            let s = other.entries[i].2;
            self.set(k, v, s);
            proof {
                let next = other.pairs().subrange(0, i + 1);
                assert(next.drop_last() =~= prefix);
                assert(next.last() == other.pairs()[i as int]);
                assert forall|j: int| 0 <= j < prefix.len() implies prefix[j].0 != k@ by {
                    assert(prefix[j] == other.pairs()[j]);
                }
                lemma_map_of_absent(prefix, k@);
                assert(self@ =~= merge_spec(start, map_of(next)));
            }
            i = i + 1;
        }
        proof {
            assert(other.pairs().subrange(0, i as int) =~= other.pairs());
            assert(self@ =~= merge_spec(start, other@));
        }
    }

    /// The `(key, value)` pairs whose key starts with `prefix`, in the order the keys were first set.
    pub fn get_properties_with_prefix(&self, prefix: &str) -> (r: Vec<(String, String)>)
        ensures
            forall|i: int| 0 <= i < r@.len() ==> #[trigger] has_prefix(r@[i].0@, prefix@)
                && self@.contains_key(r@[i].0@) && r@[i].1@ == self@[r@[i].0@].0,
            forall|k: Seq<char>| self@.contains_key(k) && has_prefix(k, prefix@)
                ==> exists|i: int| 0 <= i < r@.len() && #[trigger] r@[i].0@ == k,
            forall|i: int, j: int| 0 <= i < j < r@.len() ==> r@[i].0@ != r@[j].0@,
    {
        proof {
            use_type_invariant(self);
        }
        let mut r: Vec<(String, String)> = Vec::new();
        let ghost mut idx: Seq<int> = Seq::empty();
        let mut n: usize = 0;
        while n < self.entries.len()
            invariant
                n <= self.entries@.len(),
                keys_distinct(self.pairs()),
                idx.len() == r@.len(),
                forall|i: int| 0 <= i < r@.len() ==> 0 <= #[trigger] idx[i] < n
                    && self.pairs()[idx[i]].0 == r@[i].0@ && r@[i].1@ == self.pairs()[idx[i]].1.0,
                forall|i: int, j: int| 0 <= i < j < r@.len() ==> idx[i] < idx[j],
                forall|i: int| #![trigger r@[i]] 0 <= i < r@.len() ==> has_prefix(r@[i].0@, prefix@),
                forall|j: int| 0 <= j < n && has_prefix(#[trigger] self.pairs()[j].0, prefix@)
                    ==> exists|i: int| 0 <= i < r@.len() && idx[i] == j,
            decreases self.entries@.len() - n,
        {
            if starts_with(self.entries[n].0.as_str(), prefix) {
                let k = self.entries[n].0.clone();
                let v = self.entries[n].1.clone();
                let ghost old_r = r@;
                let ghost old_idx = idx;
                r.push((k, v));
                proof {
                    idx = idx.push(n as int);
                    assert forall|j: int| 0 <= j < n + 1 && has_prefix(#[trigger] self.pairs()[j].0, prefix@)
                        implies exists|i: int| 0 <= i < r@.len() && idx[i] == j by {
                        if j < n {
                            let i = choose|i: int| 0 <= i < old_r.len() && old_idx[i] == j;
                            assert(idx[i] == j);
                        } else {
                            assert(idx[old_r.len() as int] == j);
                        }
                    }
                    assert forall|i: int| #![trigger r@[i]] 0 <= i < r@.len() implies has_prefix(r@[i].0@, prefix@) by {
                        if i < old_r.len() {
                            assert(r@[i] == old_r[i]);
                        }
                    }
                }
            }
            n = n + 1;
        }
        proof {
            assert forall|i: int| 0 <= i < r@.len() implies #[trigger] has_prefix(r@[i].0@, prefix@)
                && self@.contains_key(r@[i].0@) && r@[i].1@ == self@[r@[i].0@].0 by {
                assert(has_prefix(r@[i].0@, prefix@));
                lemma_map_of_at(self.pairs(), idx[i]);
            }
            assert forall|k: Seq<char>| self@.contains_key(k) && has_prefix(k, prefix@)
                implies exists|i: int| 0 <= i < r@.len() && #[trigger] r@[i].0@ == k by {
                lemma_map_of_dom(self.pairs(), k);
                let j = choose|j: int| 0 <= j < self.pairs().len() && self.pairs()[j].0 == k;
                assert(has_prefix(self.pairs()[j].0, prefix@));
                let i = choose|i: int| 0 <= i < r@.len() && idx[i] == j;
                assert(r@[i].0@ == k);
            }
            assert forall|i: int, j: int| 0 <= i < j < r@.len() implies r@[i].0@ != r@[j].0@ by {
                assert(idx[i] < idx[j]);
            }
        }
        r
    }

    /// A configuration with the same properties and sources.
    pub fn duplicate(&self) -> (r: Self)
        ensures
            r@ == self@,
    {
        proof {
            use_type_invariant(self);
        }
        let mut entries: Vec<(String, String, PropertySource)> = Vec::new();
        let mut i: usize = 0;
        while i < self.entries.len()
            invariant
                i <= self.entries@.len(),
                entry_views(entries@) == self.pairs().subrange(0, i as int),
            decreases self.entries@.len() - i,
        {
            let k = self.entries[i].0.clone();
            let v = self.entries[i].1.clone();
            let s = self.entries[i].2;
            let ghost old_e = entries@;
            entries.push((k, v, s));
            proof {
                lemma_entry_views_push(old_e, (k, v, s));
                assert(self.pairs().subrange(0, i + 1) =~= self.pairs().subrange(0, i as int).push(self.pairs()[i as int]));
            }
            i = i + 1;
        }
        proof {
            assert(self.pairs().subrange(0, i as int) =~= self.pairs());
        }
        FlatConfig { entries }
    }

    /// The number of properties.
    pub fn len(&self) -> (r: usize)
        ensures
            r == self@.len(),
    {
        proof {
            use_type_invariant(self);
            lemma_map_of_finite_len(self.pairs());
        }
        self.entries.len()
    }

    /// Whether no property is set.
    pub fn is_empty(&self) -> (r: bool)
        ensures
            r == (self@.len() == 0),
    {
        proof {
            use_type_invariant(self);
            lemma_map_of_finite_len(self.pairs());
        }
        self.entries.len() == 0
    }
}

impl Clone for FlatConfig {
    fn clone(&self) -> (r: Self)
        ensures
            r@ == self@,
    {
        self.duplicate()
    }
}

impl Default for FlatConfig {
    fn default() -> (c: Self)
        ensures
            c@ == Map::<Seq<char>, (Seq<char>, PropertySource)>::empty(),
    {
        FlatConfig::new()
    }
}

/// Setting a property and reading it back: the value is the one set unless the
/// key already held a value from a source of equal or higher priority, in which
/// case nothing changes.
pub proof fn law_set_then_get(c: Map<Seq<char>, (Seq<char>, PropertySource)>, key: Seq<char>, value: Seq<char>, source: PropertySource)
    ensures
        set_spec(c, key, value, source).contains_key(key),
        (!c.contains_key(key) || c[key].1.rank() < source.rank()) ==> set_spec(c, key, value, source)[key] == (value, source),
        (c.contains_key(key) && c[key].1.rank() >= source.rank()) ==> set_spec(c, key, value, source) == c,
        forall|k: Seq<char>| k != key ==> (set_spec(c, key, value, source).contains_key(k) == c.contains_key(k)
            && (c.contains_key(k) ==> set_spec(c, key, value, source)[k] == c[k])),
{
}

/// Setting a property never lowers the priority of the source that a key is held
/// from, and setting from the highest source always takes effect.
pub proof fn law_priority_monotone(c: Map<Seq<char>, (Seq<char>, PropertySource)>, key: Seq<char>, value: Seq<char>, source: PropertySource)
    ensures
        c.contains_key(key) ==> set_spec(c, key, value, source)[key].1.rank() >= c[key].1.rank(),
        set_spec(c, key, value, source)[key].1.rank() >= source.rank(),
        source == PropertySource::SqlWith && (!c.contains_key(key) || c[key].1 != PropertySource::SqlWith)
            ==> set_spec(c, key, value, source)[key] == (value, source),
{
}

/// Merging a configuration into itself changes nothing, and merging into an
/// empty configuration gives the other configuration.
pub proof fn law_merge_identity(a: Map<Seq<char>, (Seq<char>, PropertySource)>, b: Map<Seq<char>, (Seq<char>, PropertySource)>)
    ensures
        merge_spec(a, a) == a,
        merge_spec(Map::empty(), b) == b,
        merge_spec(a, Map::empty()) == a,
{
    assert(merge_spec(a, a) =~= a);
    assert(merge_spec(Map::empty(), b) =~= b);
    assert(merge_spec(a, Map::empty()) =~= a);
}

/// One change to a configuration: setting a key, or merging another
/// configuration in.
pub enum ConfigStep {
    SetKey(Seq<char>, Seq<char>, PropertySource),
    Merge(Map<Seq<char>, (Seq<char>, PropertySource)>),
}

/// The configuration that `steps` make of an empty one, in order.
pub open spec fn apply_steps(steps: Seq<ConfigStep>) -> Map<Seq<char>, (Seq<char>, PropertySource)>
    decreases steps.len(),
{
    if steps.len() == 0 {
        Map::empty()
    } else {
        let m = apply_steps(steps.drop_last());
        match steps.last() {
            ConfigStep::SetKey(k, v, s) => set_spec(m, k, v, s),
            ConfigStep::Merge(b) => merge_spec(m, b),
        }
    }
}

/// Every key that `steps` set, or that a configuration they merge in holds.
pub open spec fn keys_touched(steps: Seq<ConfigStep>) -> Set<Seq<char>>
    decreases steps.len(),
{
    if steps.len() == 0 {
        Set::empty()
    } else {
        let ks = keys_touched(steps.drop_last());
        match steps.last() {
            ConfigStep::SetKey(k, _, _) => ks.insert(k),
            ConfigStep::Merge(b) => ks + b.dom(),
        }
    }
}

/// Starting from an empty configuration, whatever sets and merges follow,
/// the keys present are exactly the keys ever set or merged in, so the
/// number of properties (`len`) is the number of distinct keys: setting a key
/// again, whether it takes effect or not, never changes it.
pub proof fn law_len_counts_distinct_keys(steps: Seq<ConfigStep>)
    requires
        forall|i: int| 0 <= i < steps.len() ==> (#[trigger] steps[i] matches ConfigStep::Merge(b) ==> b.dom().finite()),
    ensures
        apply_steps(steps).dom() == keys_touched(steps),
        keys_touched(steps).finite(),
        apply_steps(steps).len() == keys_touched(steps).len(),
    decreases steps.len(),
{
    if steps.len() > 0 {
        let init = steps.drop_last();
        assert forall|i: int| 0 <= i < init.len() implies (#[trigger] init[i] matches ConfigStep::Merge(b) ==> b.dom().finite()) by {
            assert(init[i] == steps[i]);
        }
        law_len_counts_distinct_keys(init);
        let m = apply_steps(init);
        assert(steps[steps.len() - 1] == steps.last());
        match steps.last() {
            ConfigStep::SetKey(k, v, s) => {
                assert(set_spec(m, k, v, s).dom() =~= m.dom().insert(k));
            },
            ConfigStep::Merge(b) => {
                assert(merge_spec(m, b).dom() =~= m.dom() + b.dom());
            },
        }
    }
}

/// Classification of a stream.
#[derive(Debug, Clone, Copy, PartialEq, Eq, Structural, Hash)]
pub enum StreamType {
    /// Reads from an external system.
    Source,
    /// Writes to an external system.
    Sink,
    /// In-memory processing only.
    Internal,
}

/// The error text for a stream type name that is not recognised.
pub open spec fn invalid_stream_type_message(s: Seq<char>) -> Seq<char> {
    "Invalid stream type '"@ + s + "'. Valid values: 'source', 'sink', 'internal'"@
}

/// Distinct stream types have distinct names.
/// The name of a stream type is ASCII and already in lower case, so parsing
/// it (`StreamType::from_str`, which ignores case) gives the same type back.
pub proof fn law_stream_type_round_trip(t: StreamType)
    ensures
        is_ascii_text(t.name()),
        ascii_lowercase(t.name()) == t.name(),
        forall|u: StreamType| ascii_lowercase(t.name()) == u.name() <==> u == t,
{
    reveal_strlit("source");
    reveal_strlit("sink");
    reveal_strlit("internal");
    let n = t.name();
    assert(ascii_lowercase(n) =~= n);
    assert forall|u: StreamType| ascii_lowercase(n) == u.name() <==> u == t by {
        lemma_stream_type_names(t, u);
    }
}

pub proof fn lemma_stream_type_names(a: StreamType, b: StreamType)
    ensures
        a.name() == b.name() ==> a == b,
{
    reveal_strlit("source");
    reveal_strlit("sink");
    reveal_strlit("internal");
    if a.name() == b.name() {
        assert(a.name().len() == b.name().len());
        if a != b {
            match a {
                StreamType::Source => {
                    match b {
                        StreamType::Sink => { assert(a.name()[1] != b.name()[1]); },
                        _ => {},
                    }
                },
                StreamType::Sink => {
                    match b {
                        StreamType::Source => { assert(a.name()[1] != b.name()[1]); },
                        _ => {},
                    }
                },
                StreamType::Internal => {},
            }
        }
    }
}

impl StreamType {
    /// The lowercase name of the stream type.
    pub open spec fn name(self) -> Seq<char> {
        match self {
            StreamType::Source => "source"@,
            StreamType::Sink => "sink"@,
            StreamType::Internal => "internal"@,
        }
    }

    /// Parses a stream type name, ignoring case.
    pub fn from_str(s: &str) -> (r: Result<Self, String>)
        ensures
            r matches Ok(t) ==> lowercase(s@) == t.name(),
            r is Err ==> (forall|t: StreamType| lowercase(s@) != t.name()),
            r matches Err(e) ==> e@ == invalid_stream_type_message(s@),
            is_ascii_text(s@) ==> (r matches Ok(t) ==> ascii_lowercase(s@) == t.name()),
            is_ascii_text(s@) ==> (r is Err ==> forall|t: StreamType| ascii_lowercase(s@) != t.name()),
    {
        let lower = to_lowercase(s);
        if str_eq(lower.as_str(), "source") {
            Ok(StreamType::Source)
        } else if str_eq(lower.as_str(), "sink") {
            Ok(StreamType::Sink)
        } else if str_eq(lower.as_str(), "internal") {
            Ok(StreamType::Internal)
        } else {
            proof {
                assert forall|t: StreamType| lowercase(s@) != t.name() by {
                    match t {
                        StreamType::Source => {},
                        StreamType::Sink => {},
                        StreamType::Internal => {},
                    }
                }
            }
            let head = concat("Invalid stream type '", s);
            Err(concat(head.as_str(), "'. Valid values: 'source', 'sink', 'internal'"))
        }
    }

    /// The lowercase name of the stream type.
    pub fn as_str(&self) -> (r: &'static str)
        ensures
            r@ == self.name(),
    {
        match self {
            StreamType::Source => "source",
            StreamType::Sink => "sink",
            StreamType::Internal => "internal",
        }
    }

    pub open spec fn needs_connector(self) -> bool {
        self == StreamType::Source || self == StreamType::Sink
    }

    /// Sources and sinks need an extension; internal streams do not.
    pub fn requires_extension(&self) -> (r: bool)
        ensures
            r == self.needs_connector(),
    {
        match self {
            StreamType::Source | StreamType::Sink => true,
            StreamType::Internal => false,
        }
    }

    /// Sources and sinks need a format; internal streams do not.
    pub fn requires_format(&self) -> (r: bool)
        ensures
            r == self.needs_connector(),
    {
        match self {
            StreamType::Source | StreamType::Sink => true,
            StreamType::Internal => false,
        }
    }
}

/// The characters of an optional string.
pub open spec fn opt_view(o: Option<String>) -> Option<Seq<char>> {
    match o {
        Some(s) => Some(s@),
        None => None,
    }
}

/// Why a stream of type `t` with the given extension and format is rejected, if
/// it is: sources and sinks need both, internal streams may have neither.
pub open spec fn stream_config_error(t: StreamType, extension: Option<Seq<char>>, format: Option<Seq<char>>) -> Option<Seq<char>> {
    if t.needs_connector() {
        if extension is None {
            Some("Stream has type='"@ + t.name() + "' but missing required 'extension' property"@)
        } else if format is None {
            Some("Stream has type='"@ + t.name() + "' but missing required 'format' property"@)
        } else {
            None
        }
    } else {
        if extension is Some {
            Some("Stream has type='internal' but specifies 'extension' (not allowed)"@)
        } else if format is Some {
            Some("Stream has type='internal' but specifies 'format' (not allowed)"@)
        } else {
            None
        }
    }
}

/// A stream configuration whose extension and format agree with its type.
#[derive(Debug)]
pub struct StreamTypeConfig {
    pub stream_type: StreamType,
    pub extension: Option<String>,
    pub format: Option<String>,
    pub properties: PropertyMap,
}

impl StreamTypeConfig {
    /// Builds a configuration and validates it.
    pub fn new(
        stream_type: StreamType,
        extension: Option<String>,
        format: Option<String>,
        properties: PropertyMap,
    ) -> (r: Result<Self, String>)
        ensures
            r is Ok <==> stream_config_error(stream_type, opt_view(extension), opt_view(format)) is None,
            r matches Ok(c) ==> c.stream_type == stream_type && opt_view(c.extension) == opt_view(extension)
                && opt_view(c.format) == opt_view(format) && c.properties@ == properties@,
            r matches Err(e) ==> Some(e@) == stream_config_error(stream_type, opt_view(extension), opt_view(format)),
    {
        let config = StreamTypeConfig { stream_type, extension, format, properties };
        match config.validate() {
            Ok(()) => Ok(config),
            Err(e) => Err(e),
        }
    }

    /// Builds a configuration from the `type`, `extension` and `format`
    /// properties of a flat configuration, keeping all its values.
    pub fn from_flat_config(flat_config: &FlatConfig) -> (r: Result<Self, String>)
        ensures
            !flat_config@.contains_key("type"@) ==> (r matches Err(e) && e@ == "Stream configuration missing required 'type' property"@),
            flat_config@.contains_key("type"@) ==> ({
                let ty = flat_config@["type"@].0;
                let ext = if flat_config@.contains_key("extension"@) { Some(flat_config@["extension"@].0) } else { None };
                let fmt = if flat_config@.contains_key("format"@) { Some(flat_config@["format"@].0) } else { None };
                &&& (forall|t: StreamType| lowercase(ty) != t.name()) ==> (r matches Err(e) && e@ == invalid_stream_type_message(ty))
                &&& forall|t: StreamType| lowercase(ty) == t.name() ==> {
                    &&& (r is Ok <==> stream_config_error(t, ext, fmt) is None)
                    &&& r matches Ok(c) ==> c.stream_type == t && opt_view(c.extension) == ext
                        && opt_view(c.format) == fmt && c.properties@ == flat_config.values()
                    &&& r matches Err(e) ==> Some(e@) == stream_config_error(t, ext, fmt)
                }
            }),
    {
        let ty = match flat_config.get("type") {
            Some(t) => t,
            None => {
                return Err(owned("Stream configuration missing required 'type' property"));
            },
        };
        let stream_type = match StreamType::from_str(ty.as_str()) {
            Ok(t) => {
                proof {
                    assert forall|t2: StreamType| lowercase(ty@) == t2.name() implies t2 == t by {
                        lemma_stream_type_names(t, t2);
                    }
                }
                t
            },
            Err(e) => {
                return Err(e);
            },
        };
        let extension = match flat_config.get("extension") {
            Some(e) => Some(e.clone()),
            None => None,
        };
        let format = match flat_config.get("format") {
            Some(f) => Some(f.clone()),
            None => None,
        };
        let properties = flat_config.properties();
        Self::new(stream_type, extension, format, properties)
    }

    /// Checks the extension and format against the stream type.
    pub fn validate(&self) -> (r: Result<(), String>)
        ensures
            r is Ok <==> stream_config_error(self.stream_type, opt_view(self.extension), opt_view(self.format)) is None,
            r matches Err(e) ==> Some(e@) == stream_config_error(self.stream_type, opt_view(self.extension), opt_view(self.format)),
    {
        match self.stream_type {
            StreamType::Source | StreamType::Sink => {
                if self.extension.is_none() {
                    let head = concat("Stream has type='", self.stream_type.as_str());
                    return Err(concat(head.as_str(), "' but missing required 'extension' property"));
                }
                if self.format.is_none() {
                    let head = concat("Stream has type='", self.stream_type.as_str());
                    return Err(concat(head.as_str(), "' but missing required 'format' property"));
                }
            },
            StreamType::Internal => {
                if self.extension.is_some() {
                    return Err(owned("Stream has type='internal' but specifies 'extension' (not allowed)"));
                }
                if self.format.is_some() {
                    return Err(owned("Stream has type='internal' but specifies 'format' (not allowed)"));
                }
            },
        }
        Ok(())
    }

    /// The extension, or an error when there is none.
    pub fn extension(&self) -> (r: Result<&str, String>)
        ensures
            r matches Ok(e) ==> Some(e@) == opt_view(self.extension),
            r matches Err(e) ==> self.extension is None
                && e@ == "Stream type '"@ + self.stream_type.name() + "' requires extension"@,
    {
        match &self.extension {
            Some(e) => Ok(e.as_str()),
            None => {
                let head = concat("Stream type '", self.stream_type.as_str());
                Err(concat(head.as_str(), "' requires extension"))
            },
        }
    }

    /// The format, or an error when there is none.
    pub fn format(&self) -> (r: Result<&str, String>)
        ensures
            r matches Ok(f) ==> Some(f@) == opt_view(self.format),
            r matches Err(e) ==> self.format is None
                && e@ == "Stream type '"@ + self.stream_type.name() + "' requires format"@,
    {
        match &self.format {
            Some(f) => Ok(f.as_str()),
            None => {
                let head = concat("Stream type '", self.stream_type.as_str());
                Err(concat(head.as_str(), "' requires format"))
            },
        }
    }

    /// The properties whose key starts with `prefix`.
    pub fn get_properties_with_prefix(&self, prefix: &str) -> (r: PropertyMap)
        ensures
            forall|k: Seq<char>| #[trigger] r@.dom().contains(k) <==> (self.properties@.dom().contains(k) && has_prefix(k, prefix@)),
            forall|k: Seq<char>| #[trigger] r@.dom().contains(k) ==> r@[k] == self.properties@[k],
    {
        self.properties.with_prefix(prefix)
    }
}

} // verus!
