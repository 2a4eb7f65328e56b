//! The schema catalog of the SQL compiler: streams, tables and stream aliases.

use vstd::prelude::*;
use crate::property_map::{NamedRegistry, PropertyMap, string_views};
use crate::query_api::definition::attribute::{Attribute, AttributeType, attr_views};
use crate::query_api::definition::stream_definition::{AbstractDefinition, StreamDefinition, TableDefinition, attr_type_of};
use crate::query_api::eventflux_app::EventFluxApp;
use crate::query_api::execution::execution_element::{ExecutionElement, element_queries, queries_of};
use crate::query_api::execution::query::{OutputAttribute, Query, Selector, action_target};
use crate::query_api::expression::expression::Expression;
use crate::sql_compiler::error::CatalogError;
use crate::text::owned;

verus! {

/// A relation named in a query: a stream or a table.
#[derive(Debug)]
pub enum Relation<'a> {
    Stream(&'a StreamDefinition),
    Table(&'a TableDefinition),
}

/// The schema of a relation, whichever kind it is.
pub open spec fn relation_schema(r: Relation) -> AbstractDefinition {
    match r {
        Relation::Stream(s) => s.abstract_definition,
        Relation::Table(t) => t.abstract_definition,
    }
}

impl<'a> Relation<'a> {
    /// The relation's schema.
    pub fn abstract_definition(&self) -> (r: &AbstractDefinition)
        ensures
            *r == relation_schema(*self),
    {
        match self {
            Relation::Stream(s) => &s.abstract_definition,
            Relation::Table(t) => &t.abstract_definition,
        }
    }

    pub fn is_stream(&self) -> (r: bool)
        ensures
            r == (*self is Stream),
    {
        match self {
            Relation::Stream(_) => true,
            Relation::Table(_) => false,
        }
    }

    pub fn is_table(&self) -> (r: bool)
        ensures
            r == (*self is Table),
    {
        match self {
            Relation::Stream(_) => false,
            Relation::Table(_) => true,
        }
    }
}

/// The name of a selected output attribute: its rename, else the name of the
/// variable it selects, else `output`.
pub open spec fn output_attr_name(a: OutputAttribute) -> Seq<char> {
    match a.rename {
        Some(r) => r@,
        None => match a.expression {
            Expression::Variable(v) => v.attribute_name@,
            _ => "output"@,
        },
    }
}

/// The stream a query writes to: its target, else `OutputStream`.
pub open spec fn query_target(q: Query) -> Seq<char> {
    match action_target(q.output_stream.action) {
        Some(t) => t,
        None => "OutputStream"@,
    }
}

/// `d` is the stream definition made for the output of `q`: named after its
/// target, with one `STRING` attribute per selected attribute, in order.
pub open spec fn output_definition_of(d: StreamDefinition, q: Query) -> bool {
    &&& d.abstract_definition.id@ == query_target(q)
    &&& attr_views(d.abstract_definition.attribute_list@)
        == q.selector.selection_list@.map_values(|a: OutputAttribute| (output_attr_name(a), AttributeType::STRING))
}

/// The position of the first query in `qs` that writes to `k`.
pub open spec fn first_writer(qs: Seq<Query>, k: Seq<char>) -> Option<int>
    decreases qs.len(),
{
    if qs.len() == 0 {
        None
    } else {
        match first_writer(qs.drop_last(), k) {
            Some(i) => Some(i),
            None => if query_target(qs.last()) == k { Some(qs.len() - 1) } else { None },
        }
    }
}

proof fn lemma_first_writer_range(qs: Seq<Query>, k: Seq<char>)
    ensures
        first_writer(qs, k) matches Some(i) ==> 0 <= i < qs.len() && query_target(qs[i]) == k,
    decreases qs.len(),
{
    if qs.len() > 0 {
        lemma_first_writer_range(qs.drop_last(), k);
    }
}

/// `m` holds the streams of `base`, unchanged, and for every name that a
/// query of `qs` writes to and that is neither a stream of `base` nor a table,
/// the output stream made for the first such query; nothing else.
pub open spec fn outputs_added(
    base: Map<Seq<char>, StreamDefinition>,
    tables: Set<Seq<char>>,
    qs: Seq<Query>,
    m: Map<Seq<char>, StreamDefinition>,
) -> bool {
    &&& forall|k: Seq<char>| #[trigger] m.contains_key(k)
        <==> base.contains_key(k) || (!tables.contains(k) && first_writer(qs, k) is Some)
    &&& forall|k: Seq<char>| #[trigger] base.contains_key(k) ==> m[k] == base[k]
    &&& forall|k: Seq<char>| !base.contains_key(k) && !tables.contains(k)
        ==> (#[trigger] first_writer(qs, k) matches Some(i) ==> output_definition_of(m[k], qs[i]))
}

/// The output stream definition for query `q`, named `target`.
fn output_definition(target: String, selector: &Selector) -> (d: StreamDefinition)
    ensures
        d.abstract_definition.id@ == target@,
        attr_views(d.abstract_definition.attribute_list@)
            == selector.selection_list@.map_values(|a: OutputAttribute| (output_attr_name(a), AttributeType::STRING)),
{
    let mut d = StreamDefinition::new(target);
    let mut i: usize = 0;
    while i < selector.selection_list.len()
        invariant
            i <= selector.selection_list@.len(),
            d.abstract_definition.id@ == target@,
            attr_views(d.abstract_definition.attribute_list@)
                == selector.selection_list@.subrange(0, i as int).map_values(|a: OutputAttribute| (output_attr_name(a), AttributeType::STRING)),
        decreases selector.selection_list@.len() - i,
    {
        let a = &selector.selection_list[i];
        let name = match &a.rename {
            Some(r) => owned(r.as_str()),
            None => match &a.expression {
                Expression::Variable(v) => owned(v.attribute_name.as_str()),
                _ => owned("output"),
            },
        };
        let ghost before = d.abstract_definition.attribute_list@;
        d = d.attribute(name, AttributeType::STRING);
        proof {
            assert(selector.selection_list@.subrange(0, i + 1).map_values(|a: OutputAttribute| (output_attr_name(a), AttributeType::STRING))
                =~= selector.selection_list@.subrange(0, i as int).map_values(|a: OutputAttribute| (output_attr_name(a), AttributeType::STRING))
                    .push((output_attr_name(selector.selection_list@[i as int]), AttributeType::STRING)));
        }
        i = i + 1;
    }
    proof {
        assert(selector.selection_list@.subrange(0, i as int) =~= selector.selection_list@);
    }
    d
}

/// Adds the output stream of `q` to `streams`, unless its target is a table or
/// already a stream.
fn add_output_stream(
    streams: &mut NamedRegistry<StreamDefinition>,
    tables: &NamedRegistry<TableDefinition>,
    q: &Query,
    Ghost(base): Ghost<Map<Seq<char>, StreamDefinition>>,
    Ghost(done): Ghost<Seq<Query>>,
)
    requires
        outputs_added(base, tables.items().dom(), done, old(streams).items()),
    ensures
        outputs_added(base, tables.items().dom(), done.push(*q), final(streams).items()),
{
    let target = match q.get_output_stream().get_target_id() {
        Some(t) => owned(t),
        None => owned("OutputStream"),
    };
    let ghost qs = done.push(*q);
    proof {
        assert(qs.drop_last() =~= done);
        assert forall|k: Seq<char>| #[trigger] first_writer(done, k) is Some implies
            0 <= first_writer(done, k)->0 < done.len() by {
            lemma_first_writer_range(done, k);
        }
    }
    let ghost tv = target@;
    proof {
        assert(tv == query_target(*q));
        assert forall|k: Seq<char>| #[trigger] first_writer(qs, k) == (match first_writer(done, k) {
            Some(i) => Some(i),
            None => if k == tv { Some(done.len() as int) } else { None },
        }) by {
            assert(qs.last() == *q);
        }
    }
    let ghost m0 = streams.items();
    if !tables.contains(target.as_str()) && !streams.contains(target.as_str()) {
        let name = owned(target.as_str());
        let d = output_definition(target, q.get_selector());
        streams.register(name, d);
        proof {
            assert(streams.items() == m0.insert(tv, d));
            assert(output_definition_of(d, qs[done.len() as int]));
            assert forall|k: Seq<char>| !base.contains_key(k) && !tables.items().dom().contains(k)
                implies (#[trigger] first_writer(qs, k) matches Some(i) ==> output_definition_of(streams.items()[k], qs[i])) by {
                if k != tv {
                    if first_writer(done, k) is Some {
                        assert(qs[first_writer(done, k)->0] == done[first_writer(done, k)->0]);
                    }
                }
            }
        }
    } else {
        proof {
            assert forall|k: Seq<char>| !base.contains_key(k) && !tables.items().dom().contains(k)
                implies (#[trigger] first_writer(qs, k) matches Some(i) ==> output_definition_of(streams.items()[k], qs[i])) by {
                if first_writer(done, k) is Some {
                    assert(qs[first_writer(done, k)->0] == done[first_writer(done, k)->0]);
                }
            }
        }
    }
}

/// Streams and tables by name, and aliases of stream names.
#[derive(Debug)]
pub struct SqlCatalog {
    streams: NamedRegistry<StreamDefinition>,
    tables: NamedRegistry<TableDefinition>,
    aliases: PropertyMap,
}

impl SqlCatalog {
    /// The registered streams.
    pub closed spec fn stream_defs(&self) -> Map<Seq<char>, StreamDefinition> {
        self.streams.items()
    }

    /// The registered tables.
    pub closed spec fn table_defs(&self) -> Map<Seq<char>, TableDefinition> {
        self.tables.items()
    }

    /// The registered aliases.
    pub closed spec fn alias_map(&self) -> Map<Seq<char>, Seq<char>> {
        self.aliases@
    }

    /// The stream a name denotes: a stream of that name, else the stream that
    /// the name is an alias of.
    pub open spec fn resolve_stream(&self, name: Seq<char>) -> Option<StreamDefinition> {
        if self.stream_defs().contains_key(name) {
            Some(self.stream_defs()[name])
        } else if self.alias_map().contains_key(name) && self.stream_defs().contains_key(self.alias_map()[name]) {
            Some(self.stream_defs()[self.alias_map()[name]])
        } else {
            None
        }
    }

    /// The relation a name denotes: a stream (directly or by alias) first, else a table.
    pub open spec fn resolve_relation_schema(&self, name: Seq<char>) -> Option<AbstractDefinition> {
        match self.resolve_stream(name) {
            Some(s) => Some(s.abstract_definition),
            None => if self.table_defs().contains_key(name) {
                Some(self.table_defs()[name].abstract_definition)
            } else {
                None
            },
        }
    }

    /// An empty catalog.
    pub fn new() -> (r: Self)
        ensures
            r.stream_defs() == Map::<Seq<char>, StreamDefinition>::empty(),
            r.table_defs() == Map::<Seq<char>, TableDefinition>::empty(),
            r.alias_map() == Map::<Seq<char>, Seq<char>>::empty(),
    {
        SqlCatalog { streams: NamedRegistry::new(), tables: NamedRegistry::new(), aliases: PropertyMap::new() }
    }

    /// Registers a stream; a name already registered is an error.
    pub fn register_stream(&mut self, name: String, definition: StreamDefinition) -> (r: Result<(), CatalogError>)
        ensures
            r is Err <==> old(self).stream_defs().contains_key(name@),
            r matches Err(e) ==> (e matches CatalogError::DuplicateStream(n) && n@ == name@),
            r is Err ==> final(self).stream_defs() == old(self).stream_defs(),
            r is Ok ==> final(self).stream_defs() == old(self).stream_defs().insert(name@, definition),
            final(self).table_defs() == old(self).table_defs(),
            final(self).alias_map() == old(self).alias_map(),
    {
        if self.streams.contains(name.as_str()) {
            return Err(CatalogError::DuplicateStream(name));
        }
        self.streams.register(name, definition);
        Ok(())
    }

    /// Registers a table, replacing one of the same name.
    pub fn register_table(&mut self, name: String, definition: TableDefinition)
        ensures
            final(self).table_defs() == old(self).table_defs().insert(name@, definition),
            final(self).stream_defs() == old(self).stream_defs(),
            final(self).alias_map() == old(self).alias_map(),
    {
        self.tables.register(name, definition);
    }

    /// Makes `alias` another name of `stream_name`.
    pub fn register_alias(&mut self, alias: String, stream_name: String)
        ensures
            final(self).alias_map() == old(self).alias_map().insert(alias@, stream_name@),
            final(self).stream_defs() == old(self).stream_defs(),
            final(self).table_defs() == old(self).table_defs(),
    {
        self.aliases.insert(alias, stream_name);
    }

    /// The stream a name denotes, directly or by alias.
    pub fn get_stream(&self, name: &str) -> (r: Result<&StreamDefinition, CatalogError>)
        ensures
            r matches Ok(d) ==> self.resolve_stream(name@) == Some(*d),
            r is Err ==> self.resolve_stream(name@) is None,
            r matches Err(e) ==> (e matches CatalogError::UnknownStream(n) && n@ == name@),
    {
        match self.streams.get(name) {
            Some(d) => {
                return Ok(d);
            },
            None => {},
        }
        match self.aliases.get(name) {
            Some(actual) => match self.streams.get(actual.as_str()) {
                Some(d) => {
                    return Ok(d);
                },
                None => {},
            },
            None => {},
        }
        Err(CatalogError::UnknownStream(owned(name)))
    }

    /// The table of that name.
    pub fn get_table(&self, name: &str) -> (r: Option<&TableDefinition>)
        ensures
            r matches Some(t) ==> self.table_defs().contains_key(name@) && *t == self.table_defs()[name@],
            r is None ==> !self.table_defs().contains_key(name@),
    {
        self.tables.get(name)
    }

    /// The relation a name denotes: a stream first (directly or by alias), else a table.
    pub fn get_relation(&self, name: &str) -> (r: Result<Relation, CatalogError>)
        ensures
            r matches Ok(rel) ==> self.resolve_relation_schema(name@) == Some(relation_schema(rel)),
            r matches Ok(rel) ==> (rel is Stream <==> self.resolve_stream(name@) is Some),
            r is Err <==> self.resolve_relation_schema(name@) is None,
            r matches Err(e) ==> (e matches CatalogError::UnknownRelation(n) && n@ == name@),
    {
        match self.get_stream(name) {
            Ok(s) => {
                return Ok(Relation::Stream(s));
            },
            Err(_) => {},
        }
        match self.get_table(name) {
            Some(t) => Ok(Relation::Table(t)),
            None => Err(CatalogError::UnknownRelation(owned(name))),
        }
    }

    /// Whether a stream or table of that name exists.
    pub fn has_relation(&self, name: &str) -> (r: bool)
        ensures
            r == self.resolve_relation_schema(name@) is Some,
    {
        let s = match self.get_stream(name) {
            Ok(_) => true,
            Err(_) => false,
        };
        s || self.get_table(name).is_some()
    }

    /// Whether the relation of that name has a column of that name.
    pub fn has_column(&self, relation_name: &str, column_name: &str) -> (r: bool)
        ensures
            r == (match self.resolve_relation_schema(relation_name@) {
                Some(d) => attr_type_of(attr_views(d.attribute_list@), column_name@) is Some,
                None => false,
            }),
    {
        match self.get_relation(relation_name) {
            Ok(rel) => {
                let def = rel.abstract_definition();
                def.attribute_type(column_name).is_some()
            },
            Err(_) => false,
        }
    }

    /// The type of a column of a stream (directly or by alias).
    pub fn get_column_type(&self, stream_name: &str, column_name: &str) -> (r: Result<AttributeType, CatalogError>)
        ensures
            self.resolve_stream(stream_name@) is None ==> (r matches Err(CatalogError::UnknownStream(n)) && n@ == stream_name@),
            self.resolve_stream(stream_name@) matches Some(s) ==> ({
                let t = attr_type_of(attr_views(s.abstract_definition.attribute_list@), column_name@);
                &&& t matches Some(ty) ==> r == Ok::<AttributeType, CatalogError>(ty)
                &&& t is None ==> (r matches Err(CatalogError::UnknownColumn(a, b)) && a@ == stream_name@ && b@ == column_name@)
            }),
    {
        let stream = match self.get_stream(stream_name) {
            Ok(s) => s,
            Err(e) => {
                return Err(e);
            },
        };
        match stream.abstract_definition.attribute_type(column_name) {
            Some(t) => Ok(t),
            None => Err(CatalogError::UnknownColumn(owned(stream_name), owned(column_name))),
        }
    }

    /// All columns of a stream (directly or by alias), in order.
    pub fn get_all_columns(&self, stream_name: &str) -> (r: Result<Vec<Attribute>, CatalogError>)
        ensures
            self.resolve_stream(stream_name@) is None ==> (r matches Err(CatalogError::UnknownStream(n)) && n@ == stream_name@),
            self.resolve_stream(stream_name@) matches Some(s) ==> (r matches Ok(cols)
                && attr_views(cols@) == attr_views(s.abstract_definition.attribute_list@)),
    {
        let stream = match self.get_stream(stream_name) {
            Ok(s) => s,
            Err(e) => {
                return Err(e);
            },
        };
        let list = &stream.abstract_definition.attribute_list;
        let mut out: Vec<Attribute> = Vec::new();
        let mut i: usize = 0;
        while i < list.len()
            invariant
                i <= list@.len(),
                attr_views(out@) == attr_views(list@).subrange(0, i as int),
            decreases list@.len() - i,
        {
            let a = list[i].duplicate();
            let ghost before = out@;
            out.push(a);
            proof {
                assert(attr_views(out@) =~= attr_views(before).push((a.name@, a.attribute_type)));
                assert(attr_views(list@).subrange(0, i + 1) =~= attr_views(list@).subrange(0, i as int).push(attr_views(list@)[i as int]));
            }
            i = i + 1;
        }
        proof {
            assert(attr_views(list@).subrange(0, i as int) =~= attr_views(list@));
        }
        Ok(out)
    }

    /// The names of all streams.
    pub fn get_stream_names(&self) -> (r: Vec<String>)
        ensures
            forall|k: Seq<char>| self.stream_defs().contains_key(k) <==> string_views(r@).contains(k),
    {
        self.streams.names()
    }

    /// Whether the catalog has no stream and no table.
    pub fn is_empty(&self) -> (r: bool)
        ensures
            r == (self.stream_defs().dom().len() == 0 && self.table_defs().dom().len() == 0),
    {
        self.streams.len() == 0 && self.tables.len() == 0
    }
}

impl Default for SqlCatalog {
    fn default() -> (r: Self)
        ensures
            r.stream_defs() == Map::<Seq<char>, StreamDefinition>::empty(),
            r.table_defs() == Map::<Seq<char>, TableDefinition>::empty(),
    {
        Self::new()
    }
}

/// Registering a stream under a new name makes it resolvable under that name,
/// and registering the same name again is refused without changing anything.
pub proof fn law_register_then_resolve(c: Map<Seq<char>, StreamDefinition>, name: Seq<char>, d: StreamDefinition)
    requires
        !c.contains_key(name),
    ensures
        c.insert(name, d).contains_key(name),
        c.insert(name, d)[name] == d,
        forall|k: Seq<char>| k != name ==> c.insert(name, d).contains_key(k) == c.contains_key(k),
{
}

/// A compiled SQL application: the catalog and what it executes.
#[derive(Debug)]
pub struct SqlApplication {
    pub catalog: SqlCatalog,
    pub execution_elements: Vec<ExecutionElement>,
}

impl SqlApplication {
    pub fn new(catalog: SqlCatalog, execution_elements: Vec<ExecutionElement>) -> (r: Self)
        ensures
            r.catalog == catalog,
            r.execution_elements@ == execution_elements@,
    {
        SqlApplication { catalog, execution_elements }
    }

    pub fn get_catalog(&self) -> (r: &SqlCatalog)
        ensures
            *r == self.catalog,
    {
        &self.catalog
    }

    pub fn get_execution_elements(&self) -> (r: &[ExecutionElement])
        ensures
            r@ == self.execution_elements@,
    {
        self.execution_elements.as_slice()
    }

    /// Whether nothing is executed.
    pub fn is_empty(&self) -> (r: bool)
        ensures
            r == (self.execution_elements@.len() == 0),
    {
        self.execution_elements.len() == 0
    }

    /// The application named `app_name`: the catalog's streams and tables,
    /// and an output stream for every query (in a partition too) whose target
    /// is neither a table nor already a stream, made for the first query that
    /// writes to it (`output_definition_of`: `STRING` attributes named as
    /// selected).
    pub fn to_eventflux_app(self, app_name: String) -> (r: EventFluxApp)
        ensures
            r.name@ == app_name@,
            r.table_definition_map.items() == self.catalog.table_defs(),
            outputs_added(self.catalog.stream_defs(), self.catalog.table_defs().dom(),
                element_queries(self.execution_elements@), r.stream_definition_map.items()),
    {
        let ghost base = self.catalog.stream_defs();
        let ghost es = self.execution_elements@;
        let SqlApplication { catalog, execution_elements } = self;
        let SqlCatalog { streams, tables, aliases: _ } = catalog;
        let mut streams = streams;
        let ghost mut done: Seq<Query> = Seq::empty();
        proof {
            assert forall|k: Seq<char>| #[trigger] first_writer(done, k) is None by {}
        }
        let mut i: usize = 0;
        while i < execution_elements.len()
            invariant
                i <= es.len(),
                es == execution_elements@,
                done == element_queries(es.subrange(0, i as int)),
                outputs_added(base, tables.items().dom(), done, streams.items()),
            decreases es.len() - i,
        {
            proof {
                assert(es.subrange(0, i + 1).drop_last() =~= es.subrange(0, i as int));
            }
            match &execution_elements[i] {
                ExecutionElement::Query(q) => {
                    add_output_stream(&mut streams, &tables, q, Ghost(base), Ghost(done));
                    proof {
                        assert(done.push(*q) =~= done + seq![*q]);
                        done = done.push(*q);
                    }
                },
                ExecutionElement::Partition(p) => {
                    let ghost start = done;
                    let mut j: usize = 0;
                    while j < p.query_list.len()
                        invariant
                            j <= p.query_list@.len(),
                            done == start + p.query_list@.subrange(0, j as int),
                            outputs_added(base, tables.items().dom(), done, streams.items()),
                        decreases p.query_list@.len() - j,
                    {
                        add_output_stream(&mut streams, &tables, &p.query_list[j], Ghost(base), Ghost(done));
                        proof {
                            assert(start + p.query_list@.subrange(0, j + 1) =~= done.push(p.query_list@[j as int]));
                            done = done.push(p.query_list@[j as int]);
                        }
                        j = j + 1;
                    }
                    proof {
                        assert(p.query_list@.subrange(0, j as int) =~= p.query_list@);
                    }
                },
            }
            i = i + 1;
        }
        proof {
            assert(es.subrange(0, i as int) =~= es);
        }
        EventFluxApp { name: app_name, stream_definition_map: streams, table_definition_map: tables }
    }
}

} // verus!
