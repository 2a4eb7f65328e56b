//! String-keyed maps held as vectors of entries with distinct keys, and the
//! mathematical map that such an entry list denotes.

use vstd::prelude::*;
use crate::text::{str_eq, has_prefix, starts_with, owned};

verus! {

/// The map denoted by a list of `(key, value)` entries: a later entry for a key
/// replaces an earlier one (with distinct keys no entry is replaced).
pub open spec fn map_of<V>(s: Seq<(Seq<char>, V)>) -> Map<Seq<char>, V>
    decreases s.len(),
{
    if s.len() == 0 {
        Map::empty()
    } else {
        map_of(s.drop_last()).insert(s.last().0, s.last().1)
    }
}

/// No key occurs twice in the entry list.
pub open spec fn keys_distinct<V>(s: Seq<(Seq<char>, V)>) -> bool {
    forall|i: int, j: int| 0 <= i < j < s.len() ==> s[i].0 != s[j].0
}

/// The character sequences of a list of strings.
pub open spec fn string_views(s: Seq<String>) -> Seq<Seq<char>> {
    s.map_values(|x: String| x@)
}

/// The character sequences of a list of string pairs.
pub open spec fn pair_views(s: Seq<(String, String)>) -> Seq<(Seq<char>, Seq<char>)> {
    s.map_values(|e: (String, String)| (e.0@, e.1@))
}

pub proof fn lemma_string_views_push(s: Seq<String>, x: String)
    ensures
        string_views(s.push(x)) == string_views(s).push(x@),
{
    assert(string_views(s.push(x)) =~= string_views(s).push(x@));
}

pub proof fn lemma_pair_views_push(s: Seq<(String, String)>, x: (String, String))
    ensures
        pair_views(s.push(x)) == pair_views(s).push((x.0@, x.1@)),
{
    assert(pair_views(s.push(x)) =~= pair_views(s).push((x.0@, x.1@)));
}

/// What a sequence contains after one more element.
pub proof fn lemma_push_contains<A>(s: Seq<A>, a: A)
    ensures
        forall|y: A| #[trigger] s.push(a).contains(y) <==> (s.contains(y) || y == a),
{
    assert forall|y: A| #[trigger] s.push(a).contains(y) <==> (s.contains(y) || y == a) by {
        if s.push(a).contains(y) && y != a {
            let j = choose|j: int| 0 <= j < s.push(a).len() && s.push(a)[j] == y;
            assert(s[j] == y);
        }
        if s.contains(y) {
            let j = choose|j: int| 0 <= j < s.len() && s[j] == y;
            assert(s.push(a)[j] == y);
        }
        if y == a {
            assert(s.push(a)[s.len() as int] == y);
        }
    }
}

/// A prefix one element longer contains that element too.
pub proof fn lemma_prefix_push_contains<A>(s: Seq<A>, k: int)
    requires
        0 <= k < s.len(),
    ensures
        s.subrange(0, k + 1) == s.subrange(0, k).push(s[k]),
        forall|y: A| #[trigger] s.subrange(0, k + 1).contains(y) <==> (s.subrange(0, k).contains(y) || y == s[k]),
{
    assert(s.subrange(0, k + 1) =~= s.subrange(0, k).push(s[k]));
    lemma_push_contains(s.subrange(0, k), s[k]);
}

/// The keys of an entry list, in order.
pub open spec fn keys_of<V>(s: Seq<(Seq<char>, V)>) -> Seq<Seq<char>> {
    s.map_values(|e: (Seq<char>, V)| e.0)
}

pub proof fn lemma_map_of_dom<V>(s: Seq<(Seq<char>, V)>, k: Seq<char>)
    ensures
        map_of(s).dom().contains(k) <==> exists|i: int| 0 <= i < s.len() && s[i].0 == k,
    decreases s.len(),
{
    if s.len() > 0 {
        let t = s.drop_last();
        lemma_map_of_dom(t, k);
        if map_of(s).dom().contains(k) {
            if k == s.last().0 {
                assert(s[s.len() - 1].0 == k);
            } else {
                let i = choose|i: int| 0 <= i < t.len() && t[i].0 == k;
                assert(s[i] == t[i]);
            }
        }
        if exists|i: int| 0 <= i < s.len() && s[i].0 == k {
            let i = choose|i: int| 0 <= i < s.len() && s[i].0 == k;
            if i < s.len() - 1 {
                assert(t[i] == s[i]);
            }
        }
    }
}

pub proof fn lemma_map_of_at<V>(s: Seq<(Seq<char>, V)>, i: int)
    requires
        keys_distinct(s),
        0 <= i < s.len(),
    ensures
        map_of(s).dom().contains(s[i].0),
        map_of(s)[s[i].0] == s[i].1,
    decreases s.len(),
{
    let t = s.drop_last();
    if i < s.len() - 1 {
        assert(t[i] == s[i]);
        lemma_map_of_at(t, i);
        assert(s[i].0 != s[s.len() - 1].0);
    }
}

pub proof fn lemma_map_of_absent<V>(s: Seq<(Seq<char>, V)>, k: Seq<char>)
    requires
        forall|i: int| 0 <= i < s.len() ==> s[i].0 != k,
    ensures
        !map_of(s).dom().contains(k),
{
    lemma_map_of_dom(s, k);
}

pub proof fn lemma_map_of_update<V>(s: Seq<(Seq<char>, V)>, i: int, v: V)
    requires
        keys_distinct(s),
        0 <= i < s.len(),
    ensures
        map_of(s.update(i, (s[i].0, v))) == map_of(s).insert(s[i].0, v),
    decreases s.len(),
{
    let u = s.update(i, (s[i].0, v));
    let t = s.drop_last();
    if i == s.len() - 1 {
        assert(u.drop_last() =~= t);
        lemma_map_of_dom(t, s[i].0);
        assert(map_of(u) =~= map_of(s).insert(s[i].0, v));
    } else {
        assert(u.drop_last() =~= t.update(i, (t[i].0, v)));
        lemma_map_of_update(t, i, v);
        assert(s[i].0 != s.last().0);
        assert(map_of(u) =~= map_of(s).insert(s[i].0, v));
    }
}

pub proof fn lemma_map_of_finite_len<V>(s: Seq<(Seq<char>, V)>)
    requires
        keys_distinct(s),
    ensures
        map_of(s).dom().finite(),
        map_of(s).dom().len() == s.len(),
    decreases s.len(),
{
    if s.len() > 0 {
        let t = s.drop_last();
        lemma_map_of_finite_len(t);
        lemma_map_of_dom(t, s.last().0);
        if map_of(t).dom().contains(s.last().0) {
            let i = choose|i: int| 0 <= i < t.len() && t[i].0 == s.last().0;
            assert(s[i].0 == s[s.len() - 1].0);
        }
    }
}

/// The position of `x` in `v`.
pub fn find_name(v: &Vec<String>, x: &str) -> (r: Option<usize>)
    ensures
        r matches Some(i) ==> i < v@.len() && v@[i as int]@ == x@,
        r is None ==> !string_views(v@).contains(x@),
{
    let mut i: usize = 0;
    while i < v.len()
        invariant
            i <= v@.len(),
            forall|j: int| 0 <= j < i ==> v@[j]@ != x@,
        decreases v@.len() - i,
    {
        if str_eq(v[i].as_str(), x) {
            return Some(i);
        }
        i = i + 1;
    }
    proof {
        if string_views(v@).contains(x@) {
            let j = choose|j: int| 0 <= j < string_views(v@).len() && string_views(v@)[j] == x@;
            assert(v@[j]@ == x@);
        }
    }
    None
}

/// Appends `x` to `v` unless it is already there.
pub fn push_unique(v: &mut Vec<String>, x: &str)
    requires
        string_views(old(v)@).no_duplicates(),
    ensures
        string_views(final(v)@).no_duplicates(),
        forall|y: Seq<char>| string_views(final(v)@).contains(y) <==> (string_views(old(v)@).contains(y) || y == x@),
        string_views(old(v)@).contains(x@) ==> final(v)@ == old(v)@,
        !string_views(old(v)@).contains(x@) ==> string_views(final(v)@) == string_views(old(v)@).push(x@),
{
    match find_name(v, x) {
        Some(i) => {
            proof {
                assert(string_views(v@)[i as int] == x@);
            }
        },
        None => {
            let ghost before = v@;
            let s = owned(x);
            v.push(s);
            proof {
                lemma_string_views_push(before, s);
                lemma_push_contains(string_views(before), x@);
            }
        },
    }
}

/// A string-keyed map of strings; keys are unique and entries keep the order in
/// which keys were first inserted.
#[derive(Debug)]
pub struct PropertyMap {
    entries: Vec<(String, String)>,
}

impl PropertyMap {
    /// The entries as character sequences.
    pub closed spec fn pairs(&self) -> Seq<(Seq<char>, Seq<char>)> {
        pair_views(self.entries@)
    }

    #[verifier::type_invariant]
    closed spec fn inv(&self) -> bool {
        keys_distinct(self.pairs())
    }

    /// The keys in insertion order.
    pub closed spec fn key_seq(&self) -> Seq<Seq<char>> {
        keys_of(self.pairs())
    }
}

impl View for PropertyMap {
    type V = Map<Seq<char>, Seq<char>>;

    closed spec fn view(&self) -> Map<Seq<char>, Seq<char>> {
        map_of(self.pairs())
    }
}

impl PropertyMap {
    /// An empty map.
    pub fn new() -> (m: Self)
        ensures
            m@ == Map::<Seq<char>, Seq<char>>::empty(),
            m.key_seq() == Seq::<Seq<char>>::empty(),
    {
        let m = PropertyMap { entries: Vec::new() };
        proof {
            assert(m.pairs() =~= Seq::<(Seq<char>, Seq<char>)>::empty());
            assert(m.key_seq() =~= Seq::<Seq<char>>::empty());
        }
        m
    }

    /// The position of `key` among the entries.
    fn position(&self, key: &str) -> (r: Option<usize>)
        ensures
            r matches Some(i) ==> i < self.pairs().len() && self.pairs()[i as int].0 == key@,
            r is None ==> !self@.dom().contains(key@),
    {
        proof {
            use_type_invariant(self);
        }
        let mut i: usize = 0;
        while i < self.entries.len()
            invariant
                i <= self.entries@.len(),
                forall|j: int| 0 <= j < i ==> self.pairs()[j].0 != key@,
            decreases self.entries@.len() - i,
        {
            if str_eq(self.entries[i].0.as_str(), key) {
                return Some(i);
            }
            i = i + 1;
        }
        proof {
            lemma_map_of_absent(self.pairs(), key@);
        }
        None
    }

    /// Sets `key` to `value`; a key already present keeps its place.
    pub fn insert(&mut self, key: String, value: String)
        ensures
            final(self)@ == old(self)@.insert(key@, value@),
            old(self)@.dom().contains(key@) ==> final(self).key_seq() == old(self).key_seq(),
            !old(self)@.dom().contains(key@) ==> final(self).key_seq() == old(self).key_seq().push(key@),
    {
        proof {
            use_type_invariant(&*self);
        }
        match self.position(key.as_str()) {
            Some(i) => {
                let ghost old_pairs = self.pairs();
                let k = self.entries[i].0.clone();
                let mut entries: Vec<(String, String)> = Vec::new();
                std::mem::swap(&mut entries, &mut self.entries);
                entries.set(i, (k, value));
                proof {
                    assert(pair_views(entries@) =~= old_pairs.update(i as int, (old_pairs[i as int].0, value@)));
                }
                self.entries = entries;
                proof {
                    assert(self.pairs() =~= old_pairs.update(i as int, (old_pairs[i as int].0, value@)));
                    lemma_map_of_update(old_pairs, i as int, value@);
                    lemma_map_of_at(old_pairs, i as int);
                    assert(self.key_seq() =~= old(self).key_seq());
                }
            },
            None => {
                let ghost old_pairs = self.pairs();
                let mut entries: Vec<(String, String)> = Vec::new();
                std::mem::swap(&mut entries, &mut self.entries);
                proof {
                    lemma_map_of_dom(old_pairs, key@);
                }
                entries.push((key, value));
                proof {
                    assert(pair_views(entries@) =~= old_pairs.push((key@, value@)));
                }
                self.entries = entries;
                proof {
                    assert(self.pairs() =~= old_pairs.push((key@, value@)));
                    assert(self.pairs().drop_last() =~= old_pairs);
                    lemma_map_of_dom(old_pairs, key@);
                    assert(self.key_seq() =~= old(self).key_seq().push(key@));
                }
            },
        }
    }

    /// The value stored under `key`.
    pub fn get(&self, key: &str) -> (r: Option<&String>)
        ensures
            r matches Some(v) ==> self@.dom().contains(key@) && v@ == self@[key@],
            r is None ==> !self@.dom().contains(key@),
    {
        proof {
            use_type_invariant(self);
        }
        match self.position(key) {
            Some(i) => {
                proof {
                    lemma_map_of_at(self.pairs(), i as int);
                }
                Some(&self.entries[i].1)
            },
            None => None,
        }
    }

    /// Whether `key` is present.
    pub fn contains_key(&self, key: &str) -> (r: bool)
        ensures
            r == self@.dom().contains(key@),
    {
        proof {
            use_type_invariant(self);
        }
        match self.position(key) {
            Some(i) => {
                proof {
                    lemma_map_of_at(self.pairs(), i as int);
                }
                true
            },
            None => false,
        }
    }

    /// The number of keys.
    pub fn len(&self) -> (r: usize)
        ensures
            r == self@.dom().len(),
            r == self.key_seq().len(),
    {
        proof {
            use_type_invariant(self);
            lemma_map_of_finite_len(self.pairs());
        }
        self.entries.len()
    }

    /// Whether the map has no key.
    pub fn is_empty(&self) -> (r: bool)
        ensures
            r == (self@.dom().len() == 0),
    {
        proof {
            use_type_invariant(self);
            lemma_map_of_finite_len(self.pairs());
        }
        self.entries.len() == 0
    }

    /// The keys, in insertion order.
    pub fn keys(&self) -> (r: Vec<String>)
        ensures
            string_views(r@) == self.key_seq(),
            self.key_seq().no_duplicates(),
            forall|k: Seq<char>| self@.dom().contains(k) <==> self.key_seq().contains(k),
    {
        proof {
            use_type_invariant(self);
            assert forall|k: Seq<char>| self@.dom().contains(k) <==> self.key_seq().contains(k) by {
                lemma_map_of_dom(self.pairs(), k);
                if self.key_seq().contains(k) {
                    let i = choose|i: int| 0 <= i < self.key_seq().len() && self.key_seq()[i] == k;
                    assert(self.pairs()[i].0 == k);
                }
                if self@.dom().contains(k) {
                    let i = choose|i: int| 0 <= i < self.pairs().len() && self.pairs()[i].0 == k;
                    assert(self.key_seq()[i] == k);
                }
            }
        }
        let mut r: Vec<String> = Vec::new();
        let mut i: usize = 0;
        while i < self.entries.len()
            invariant
                i <= self.entries@.len(),
                string_views(r@) == self.key_seq().subrange(0, i as int),
            decreases self.entries@.len() - i,
        {
            let ghost old_r = r@;
            let k = self.entries[i].0.clone();
            r.push(k);
            proof {
                lemma_string_views_push(old_r, k);
                assert(self.key_seq().subrange(0, i + 1) =~= self.key_seq().subrange(0, i as int).push(self.key_seq()[i as int]));
            }
            i = i + 1;
        }
        proof {
            assert(self.key_seq().subrange(0, i as int) =~= self.key_seq());
        }
        r
    }

    /// The entries as `(key, value)` pairs, in insertion order.
    pub fn entries(&self) -> (r: Vec<(String, String)>)
        ensures
            pair_views(r@) == self.pairs(),
            map_of(self.pairs()) == self@,
            keys_distinct(self.pairs()),
    {
        proof {
            use_type_invariant(self);
        }
        let mut r: Vec<(String, String)> = Vec::new();
        let mut i: usize = 0;
        while i < self.entries.len()
            invariant
                i <= self.entries@.len(),
                pair_views(r@) == self.pairs().subrange(0, i as int),
            decreases self.entries@.len() - i,
        {
            let k = self.entries[i].0.clone();
            let v = self.entries[i].1.clone();
            let ghost old_r = r@;
            r.push((k, v));
            proof {
                lemma_pair_views_push(old_r, (k, v));
                assert(self.pairs().subrange(0, i + 1) =~= self.pairs().subrange(0, i as int).push(self.pairs()[i as int]));
            }
            i = i + 1;
        }
        proof {
            assert(self.pairs().subrange(0, i as int) =~= self.pairs());
        }
        r
    }

    /// A map with the same contents.
    pub fn copy(&self) -> (r: Self)
        ensures
            r@ == self@,
            r.key_seq() == self.key_seq(),
    {
        proof {
            use_type_invariant(self);
        }
        let mut entries: Vec<(String, String)> = Vec::new();
        let mut i: usize = 0;
        while i < self.entries.len()
            invariant
                i <= self.entries@.len(),
                pair_views(entries@) == self.pairs().subrange(0, i as int),
            decreases self.entries@.len() - i,
        {
            let k = self.entries[i].0.clone();
            let v = self.entries[i].1.clone();
            let ghost old_r = entries@;
            entries.push((k, v));
            proof {
                lemma_pair_views_push(old_r, (k, v));
                assert(self.pairs().subrange(0, i + 1) =~= self.pairs().subrange(0, i as int).push(self.pairs()[i as int]));
            }
            i = i + 1;
        }
        proof {
            assert(self.pairs().subrange(0, i as int) =~= self.pairs());
        }
        let r = PropertyMap { entries };
        proof {
            assert(r.pairs() =~= self.pairs());
        }
        r
    }

    /// The entries whose key starts with `prefix`, in the same order.
    pub fn with_prefix(&self, prefix: &str) -> (r: Self)
        ensures
            forall|k: Seq<char>| #[trigger] r@.dom().contains(k) <==> (self@.dom().contains(k) && has_prefix(k, prefix@)),
            forall|k: Seq<char>| #[trigger] r@.dom().contains(k) ==> r@[k] == self@[k],
    {
        proof {
            use_type_invariant(self);
        }
        let mut out = PropertyMap::new();
        let mut i: usize = 0;
        while i < self.entries.len()
            invariant
                i <= self.entries@.len(),
                keys_distinct(self.pairs()),
                forall|k: Seq<char>| #[trigger] out@.dom().contains(k) <==>
                    (exists|j: int| 0 <= j < i && self.pairs()[j].0 == k) && has_prefix(k, prefix@),
                forall|k: Seq<char>| #[trigger] out@.dom().contains(k) ==> out@[k] == self@[k],
            decreases self.entries@.len() - i,
        {
            let ghost k = self.pairs()[i as int].0;
            if starts_with(self.entries[i].0.as_str(), prefix) {
                let key = self.entries[i].0.clone();
                let value = self.entries[i].1.clone();
                proof {
                    lemma_map_of_at(self.pairs(), i as int);
                }
                out.insert(key, value);
            }
            proof {
                assert forall|k2: Seq<char>| #[trigger] out@.dom().contains(k2) <==>
                    (exists|j: int| 0 <= j < i + 1 && self.pairs()[j].0 == k2) && has_prefix(k2, prefix@) by {
                    if exists|j: int| 0 <= j < i + 1 && self.pairs()[j].0 == k2 {
                        let j = choose|j: int| 0 <= j < i + 1 && self.pairs()[j].0 == k2;
                        if j < i {
                            assert(exists|j2: int| 0 <= j2 < i && self.pairs()[j2].0 == k2);
                        }
                    }
                    if (exists|j: int| 0 <= j < i && self.pairs()[j].0 == k2) {
                        let j = choose|j: int| 0 <= j < i && self.pairs()[j].0 == k2;
                        assert(0 <= j < i + 1 && self.pairs()[j].0 == k2);
                    }
                    if k2 == k {
                        assert(self.pairs()[i as int].0 == k2);
                    }
                }
            }
            i = i + 1;
        }
        proof {
            assert forall|k: Seq<char>| #[trigger] out@.dom().contains(k) <==> (self@.dom().contains(k) && has_prefix(k, prefix@)) by {
                lemma_map_of_dom(self.pairs(), k);
            }
        }
        out
    }
}


/// The views of registry entries `(name, item)`.
pub open spec fn named_views<F>(s: Seq<(String, F)>) -> Seq<(Seq<char>, F)> {
    s.map_values(|e: (String, F)| (e.0@, e.1))
}

/// Items registered under distinct names; registering a name again replaces
/// the item.
#[derive(Debug)]
pub struct NamedRegistry<F> {
    entries: Vec<(String, F)>,
}

impl<F> NamedRegistry<F> {
    pub closed spec fn pairs(&self) -> Seq<(Seq<char>, F)> {
        named_views(self.entries@)
    }

    #[verifier::type_invariant]
    closed spec fn inv(&self) -> bool {
        keys_distinct(self.pairs())
    }

    /// What is registered under each name.
    pub closed spec fn items(&self) -> Map<Seq<char>, F> {
        map_of(self.pairs())
    }

    /// The registered names.
    pub closed spec fn names_set(&self) -> Set<Seq<char>> {
        self.items().dom()
    }

    /// An empty registry.
    pub fn new() -> (r: Self)
        ensures
            r.items() == Map::<Seq<char>, F>::empty(),
            r.names_set() == Set::<Seq<char>>::empty(),
    {
        let r = NamedRegistry { entries: Vec::new() };
        proof {
            assert(r.pairs() =~= Seq::<(Seq<char>, F)>::empty());
            assert(r.names_set() =~= Set::<Seq<char>>::empty());
        }
        r
    }

    fn position(&self, name: &str) -> (r: Option<usize>)
        ensures
            r matches Some(i) ==> i < self.pairs().len() && self.pairs()[i as int].0 == name@
                && self.items().contains_key(name@) && self.items()[name@] == self.pairs()[i as int].1,
            r is None ==> !self.items().contains_key(name@),
    {
        proof {
            use_type_invariant(self);
        }
        let mut i: usize = 0;
        while i < self.entries.len()
            invariant
                i <= self.entries@.len(),
                keys_distinct(self.pairs()),
                forall|j: int| 0 <= j < i ==> self.pairs()[j].0 != name@,
            decreases self.entries@.len() - i,
        {
            if str_eq(self.entries[i].0.as_str(), name) {
                proof {
                    lemma_map_of_at(self.pairs(), i as int);
                }
                return Some(i);
            }
            i = i + 1;
        }
        proof {
            lemma_map_of_absent(self.pairs(), name@);
        }
        None
    }

    /// Registers `item` under `name`, replacing what was registered there.
    pub fn register(&mut self, name: String, item: F)
        ensures
            final(self).items() == old(self).items().insert(name@, item),
            final(self).names_set() == old(self).names_set().insert(name@),
    {
        proof {
            use_type_invariant(&*self);
        }
        let ghost old_pairs = self.pairs();
        let ghost nv = name@;
        match self.position(name.as_str()) {
            Some(i) => {
                let mut entries: Vec<(String, F)> = Vec::new();
                std::mem::swap(&mut entries, &mut self.entries);
                entries.set(i, (name, item));
                proof {
                    assert(named_views(entries@) =~= old_pairs.update(i as int, (old_pairs[i as int].0, item)));
                    lemma_map_of_update(old_pairs, i as int, item);
                }
                self.entries = entries;
                proof {
                    assert(self.names_set() =~= old(self).names_set().insert(nv));
                }
            },
            None => {
                let mut entries: Vec<(String, F)> = Vec::new();
                std::mem::swap(&mut entries, &mut self.entries);
                proof {
                    lemma_map_of_dom(old_pairs, nv);
                }
                entries.push((name, item));
                proof {
                    assert(named_views(entries@) =~= old_pairs.push((nv, item)));
                    assert(named_views(entries@).drop_last() =~= old_pairs);
                }
                self.entries = entries;
                proof {
                    assert(self.names_set() =~= old(self).names_set().insert(nv));
                }
            },
        }
    }

    /// The item registered under `name`.
    pub fn get(&self, name: &str) -> (r: Option<&F>)
        ensures
            r matches Some(f) ==> self.items().contains_key(name@) && *f == self.items()[name@],
            r is None ==> !self.items().contains_key(name@),
            r is Some <==> self.names_set().contains(name@),
    {
        match self.position(name) {
            Some(i) => Some(&self.entries[i].1),
            None => None,
        }
    }

    /// Whether something is registered under `name`.
    pub fn contains(&self, name: &str) -> (r: bool)
        ensures
            r == self.items().contains_key(name@),
    {
        match self.position(name) {
            Some(_) => true,
            None => false,
        }
    }

    /// The number of registered names.
    pub fn len(&self) -> (r: usize)
        ensures
            self.names_set().finite(),
            r == self.names_set().len(),
            r == self.items().dom().len(),
    {
        proof {
            use_type_invariant(self);
            lemma_map_of_finite_len(self.pairs());
        }
        self.entries.len()
    }

    /// The entries, in order of first registration.
    pub fn into_entries(self) -> (r: Vec<(String, F)>)
        ensures
            named_views(r@) == self.pairs(),
            keys_distinct(named_views(r@)),
            map_of(named_views(r@)) == self.items(),
    {
        proof {
            use_type_invariant(&self);
        }
        self.entries
    }

    /// The registered names, in order of first registration.
    pub fn names(&self) -> (r: Vec<String>)
        ensures
            forall|k: Seq<char>| self.items().contains_key(k) <==> string_views(r@).contains(k),
    {
        proof {
            use_type_invariant(self);
        }
        let mut r: Vec<String> = Vec::new();
        let mut i: usize = 0;
        while i < self.entries.len()
            invariant
                i <= self.entries@.len(),
                string_views(r@) == self.pairs().subrange(0, i as int).map_values(|e: (Seq<char>, F)| e.0),
            decreases self.entries@.len() - i,
        {
            let ghost old_r = r@;
            let k = self.entries[i].0.clone();
            r.push(k);
            proof {
                lemma_string_views_push(old_r, k);
                assert(self.pairs().subrange(0, i + 1).map_values(|e: (Seq<char>, F)| e.0)
                    =~= self.pairs().subrange(0, i as int).map_values(|e: (Seq<char>, F)| e.0).push(k@));
            }
            i = i + 1;
        }
        proof {
            assert(self.pairs().subrange(0, i as int) =~= self.pairs());
            assert forall|k: Seq<char>| self.items().contains_key(k) <==> string_views(r@).contains(k) by {
                lemma_map_of_dom(self.pairs(), k);
                if string_views(r@).contains(k) {
                    let j = choose|j: int| 0 <= j < string_views(r@).len() && string_views(r@)[j] == k;
                    assert(self.pairs()[j].0 == k);
                }
                if self.items().contains_key(k) {
                    let j = choose|j: int| 0 <= j < self.pairs().len() && self.pairs()[j].0 == k;
                    assert(string_views(r@)[j] == k);
                }
            }
        }
        r
    }
}

} // verus!
