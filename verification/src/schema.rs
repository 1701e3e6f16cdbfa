//! The schema cache: which columns each known table has, which of them
//! hold variant (JSONB) data, and which form its primary key.

use vstd::prelude::*;
use vstd::string::StringExecFns;
use crate::assoc::{lookup, as_map, keys_unique, assoc_insert, assoc_get, find_index};
use crate::config::{AllowList, DataMap, allow_list_wf};
use crate::error::HttpError;
use crate::text::{views, owned, copy_string, clone_strings};

verus! {

/// A column of a database table.
pub struct Column {
    pub nullable: bool,
    pub data_type: String,
}

impl Column {
    pub fn clone(&self) -> (r: Column)
        ensures
            r == *self,
    {
        Column { nullable: self.nullable, data_type: self.data_type.clone() }
    }
}

/// A database table as the cache knows it.
pub struct Table {
    pub primary_key: Vec<String>,
    /// The JSONB columns, which take the fields that have no column.
    pub variant: Vec<String>,
    pub column: Vec<(String, Column)>,
}

/// The cached description of a table: primary key columns in order, the set
/// of variant columns, and the columns by name.
pub struct TableView {
    pub primary_key: Seq<Seq<char>>,
    pub variant: Set<Seq<char>>,
    pub column: Map<Seq<char>, Column>,
}

impl View for Table {
    type V = TableView;

    open spec fn view(&self) -> TableView {
        TableView {
            primary_key: views(self.primary_key@),
            variant: views(self.variant@).to_set(),
            column: as_map(self.column@),
        }
    }
}

impl Table {
    /// No column name occurs twice.
    /// No column name occurs twice, nor a variant column.
    pub open spec fn wf(&self) -> bool {
        &&& keys_unique(self.column@)
        &&& views(self.variant@).no_duplicates()
    }

    pub fn clone(&self) -> (r: Table)
        ensures
            r.primary_key@ == self.primary_key@,
            r.variant@ == self.variant@,
            r.column@ == self.column@,
            r@ == self@,
    {
        let mut column: Vec<(String, Column)> = Vec::new();
        let mut i: usize = 0;
        while i < self.column.len()
            invariant
                i <= self.column.len(),
                column@ == self.column@.take(i as int),
            decreases self.column.len() - i,
        {
            column.push((self.column[i].0.clone(), self.column[i].1.clone()));
            proof {
                assert(self.column@.take(i + 1) == self.column@.take(i as int).push(self.column@[i as int]));
            }
            i = i + 1;
        }
        proof {
            assert(self.column@.take(self.column.len() as int) == self.column@);
        }
        Table {
            primary_key: clone_strings(&self.primary_key),
            variant: clone_strings(&self.variant),
            column,
        }
    }

    /// Whether `name` is a variant column.
    pub fn has_variant(&self, name: &String) -> (r: bool)
        ensures
            r == self@.variant.contains(name@),
    {
        let mut i: usize = 0;
        while i < self.variant.len()
            invariant
                i <= self.variant.len(),
                forall|j: int| 0 <= j < i ==> self.variant@[j]@ != name@,
            decreases self.variant.len() - i,
        {
            if self.variant[i] == *name {
                proof {
                    assert(views(self.variant@)[i as int] == name@);
                }
                return true;
            }
            i = i + 1;
        }
        proof {
            if views(self.variant@).to_set().contains(name@) {
                let j = choose|j: int| 0 <= j < views(self.variant@).len() && views(self.variant@)[j] == name@;
                assert(self.variant@[j]@ == name@);
            }
        }
        false
    }
}

/// The tables of one database schema.
pub struct Schema {
    pub table: Vec<(String, Table)>,
}

/// A table fetched from the database, with the schema and name it belongs to.
pub struct Entity {
    pub schema: String,
    pub table: String,
    pub content: Table,
}

/// The cache of table descriptions, the client that fills it, and the
/// Redis pool the service keeps beside it.
pub struct Store<T, R> {
    pub schema: Vec<(String, Schema)>,
    pub datamap: DataMap,
    pub allow_list: AllowList,
    pub client: T,
    pub redis: R,
}

/// The cached tables: schema name to table name to table.
pub open spec fn store_map(s: Seq<(String, Schema)>) -> Map<Seq<char>, Map<Seq<char>, Table>> {
    Map::new(
        |k: Seq<char>| lookup(s, k) is Some,
        |k: Seq<char>| as_map(lookup(s, k)->0.table@),
    )
}

/// The cache with `content` stored as table `table` of schema `schema`.
pub open spec fn spec_update(
    m: Map<Seq<char>, Map<Seq<char>, Table>>,
    schema: Seq<char>,
    table: Seq<char>,
    content: Table,
) -> Map<Seq<char>, Map<Seq<char>, Table>> {
    let tables = if m.dom().contains(schema) { m[schema] } else { Map::empty() };
    m.insert(schema, tables.insert(table, content))
}

/// The table cached as `table` of schema `schema`, if any.
pub open spec fn cached(m: Map<Seq<char>, Map<Seq<char>, Table>>, schema: Seq<char>, table: Seq<char>) -> Option<Table> {
    if m.dom().contains(schema) && m[schema].dom().contains(table) {
        Some(m[schema][table])
    } else {
        None
    }
}

/// Every cached table, written `schema.table`, schema after schema.
pub open spec fn listing(s: Seq<(String, Schema)>) -> Seq<Seq<char>>
    decreases s.len(),
{
    if s.len() == 0 {
        Seq::<Seq<char>>::empty()
    } else {
        listing(s.drop_last()) + s.last().1.table@.map_values(
            |e: (String, Table)| s.last().0@ + "."@ + e.0@,
        )
    }
}

/// What a cache lookup for a table finds, when the caller may force a fresh fetch.
pub open spec fn sync_hit(m: Map<Seq<char>, Map<Seq<char>, Table>>, schema: Seq<char>, table: Seq<char>, force: Option<bool>) -> Option<Table> {
    if force == Some(true) {
        None
    } else {
        cached(m, schema, table)
    }
}

impl<T, R> Store<T, R> {
    pub open spec fn tables(&self) -> Map<Seq<char>, Map<Seq<char>, Table>> {
        store_map(self.schema@)
    }

    /// No schema name occurs twice, nor a table name within a schema.
    pub open spec fn wf(&self) -> bool {
        &&& keys_unique(self.schema@)
        &&& forall|i: int| 0 <= i < self.schema@.len() ==> keys_unique(#[trigger] self.schema@[i].1.table@)
        &&& allow_list_wf(self.allow_list)
    }

    /// An empty cache around `client`, keeping `redis`.
    pub fn new(client: T, allow_list: AllowList, datamap: DataMap, redis: R) -> (r: Self)
        ensures
            r.schema@.len() == 0,
            r.tables() == Map::<Seq<char>, Map<Seq<char>, Table>>::empty(),
            r.wf() == allow_list_wf(allow_list),
            r.client == client,
            r.allow_list == allow_list,
            r.datamap == datamap,
            r.redis == redis,
    {
        let r = Store { datamap, schema: Vec::new(), allow_list, client, redis };
        proof {
            assert(r.tables() =~= Map::<Seq<char>, Map<Seq<char>, Table>>::empty());
        }
        r
    }

    /// Stores the fetched table, replacing what was cached under its schema
    /// and name and leaving every other table as it was.
    pub fn update(&mut self, entity: Entity) -> (r: Result<(), HttpError>)
        ensures
            r is Ok,
            final(self).tables() == spec_update(old(self).tables(), entity.schema@, entity.table@, entity.content),
            old(self).wf() ==> final(self).wf(),
            final(self).datamap == old(self).datamap,
            final(self).allow_list == old(self).allow_list,
            final(self).client == old(self).client,
            final(self).redis == old(self).redis,
    {
        let Entity { schema, table, content } = entity;
        let ghost s0 = self.schema@;
        let ghost sk = schema@;
        let ghost tk = table@;
        let ghost c = content;
        match find_index(&self.schema, &schema) {
            Some(i) => {
                let (name, mut sch) = self.schema.remove(i);
                let ghost inner0 = sch.table@;
                assoc_insert(&mut sch.table, table, content);
                let ghost sch1 = sch;
                self.schema.insert(i, (name, sch));
                proof {
                    assert(self.schema@ == s0.update(i as int, (s0[i as int].0, sch1)));
                    assert forall|q: Seq<char>| #[trigger] lookup(self.schema@, q) == if q == sk { Some(sch1) } else { lookup(s0, q) } by {
                        crate::assoc::lemma_lookup_update(s0, i as int, sch1, q);
                    }
                    assert(as_map(sch1.table@) == as_map(inner0).insert(tk, c));
                    assert(store_map(s0)[sk] == as_map(inner0));
                    assert(store_map(self.schema@) =~= spec_update(store_map(s0), sk, tk, c));
                    if keys_unique(s0) && (forall|j: int| 0 <= j < s0.len() ==> keys_unique(#[trigger] s0[j].1.table@)) {
                        assert(keys_unique(inner0));
                        assert forall|j: int| 0 <= j < self.schema@.len() implies keys_unique(#[trigger] self.schema@[j].1.table@) by {
                            if j != i {
                                assert(self.schema@[j] == s0[j]);
                                assert(keys_unique(s0[j].1.table@));
                            } else {
                                assert(self.schema@[j].1 == sch1);
                            }
                        }
                    }
                }
            },
            None => {
                let mut t: Vec<(String, Table)> = Vec::new();
                t.push((table, content));
                let sch = Schema { table: t };
                let ghost sch1 = sch;
                self.schema.push((schema, sch));
                proof {
                    assert forall|q: Seq<char>| #[trigger] lookup(self.schema@, q) == if q == sk { Some(sch1) } else { lookup(s0, q) } by {
                        crate::assoc::lemma_lookup_push(s0, (schema, sch1), q);
                    }
                    let e: Seq<(String, Table)> = Seq::empty();
                    assert(sch1.table@ == e.push((table, c)));
                    assert forall|q: Seq<char>| #[trigger] lookup(sch1.table@, q) == if q == tk { Some(c) } else { None::<Table> } by {
                        crate::assoc::lemma_lookup_push(e, (table, c), q);
                    }
                    assert(as_map(sch1.table@) =~= Map::<Seq<char>, Table>::empty().insert(tk, c));
                    assert(store_map(self.schema@) =~= spec_update(store_map(s0), sk, tk, c));
                    if keys_unique(s0) && (forall|j: int| 0 <= j < s0.len() ==> keys_unique(#[trigger] s0[j].1.table@)) {
                        assert forall|j: int| 0 <= j < self.schema@.len() implies keys_unique(#[trigger] self.schema@[j].1.table@) by {
                            if j < s0.len() {
                                assert(self.schema@[j] == s0[j]);
                                assert(keys_unique(s0[j].1.table@));
                            } else {
                                assert(self.schema@[j].1 == sch1);
                            }
                        }
                        assert forall|a: int, b: int| 0 <= a < b < self.schema@.len() implies self.schema@[a].0@ != self.schema@[b].0@ by {
                            if b == s0.len() {
                                assert(self.schema@[a] == s0[a]);
                            } else {
                                assert(self.schema@[a] == s0[a]);
                                assert(self.schema@[b] == s0[b]);
                            }
                        }
                    }
                }
            },
        }
        Ok(())
    }

    fn find_table(&self, schema: &String, table: &String) -> (r: Option<&Table>)
        ensures
            match r {
                Some(t) => cached(self.tables(), schema@, table@) == Some(*t),
                None => cached(self.tables(), schema@, table@) is None,
            },
    {
        match assoc_get(&self.schema, schema) {
            Some(s) => {
                let r = assoc_get(&s.table, table);
                proof {
                    assert(self.tables().dom().contains(schema@));
                    assert(self.tables()[schema@] == as_map(s.table@));
                }
                r
            },
            None => None,
        }
    }

    /// The cached table `table` of schema `schema`, or the error `not fount`.
    pub fn get(&self, schema: &String, table: &String) -> (r: Result<Table, HttpError>)
        ensures
            match cached(self.tables(), schema@, table@) {
                Some(t) => r matches Ok(x) && x@ == t@ && x.column@ == t.column@,
                None => r matches Err(e) && e.0@ == "not fount"@,
            },
    {
        match self.find_table(schema, table) {
            Some(t) => Ok(t.clone()),
            None => Err(HttpError::new(owned("not fount"))),
        }
    }

    /// The first step of bringing a table description up to date: the cached
    /// table, unless `force` asks for a fresh fetch or nothing is cached; in
    /// those cases `None`, and the caller fetches the table and hands it to
    /// `sync_store`.
    pub fn sync_cached(&self, schema: &String, table: &String, force: &Option<bool>) -> (r: Option<Table>)
        ensures
            match sync_hit(self.tables(), schema@, table@, *force) {
                Some(t) => r matches Some(x) && x@ == t@ && x.column@ == t.column@,
                None => r is None,
            },
    {
        let force = match force {
            Some(b) => *b,
            None => false,
        };
        if force {
            return None;
        }
        match self.find_table(schema, table) {
            Some(t) => Some(t.clone()),
            None => None,
        }
    }

    /// The second step: caches the fetched table and returns its description.
    pub fn sync_store(&mut self, entity: Entity) -> (r: Table)
        ensures
            r@ == entity.content@,
            r.column@ == entity.content.column@,
            final(self).tables() == spec_update(old(self).tables(), entity.schema@, entity.table@, entity.content),
            old(self).wf() ==> final(self).wf(),
            final(self).datamap == old(self).datamap,
            final(self).allow_list == old(self).allow_list,
            final(self).client == old(self).client,
            final(self).redis == old(self).redis,
    {
        let r = entity.content.clone();
        let _ = self.update(entity);
        r
    }

    /// Every cached table as `schema.table`.
    pub fn list(&self) -> (r: Vec<String>)
        ensures
            views(r@) == listing(self.schema@),
    {
        let mut r: Vec<String> = Vec::new();
        let mut i: usize = 0;
        while i < self.schema.len()
            invariant
                i <= self.schema.len(),
                views(r@) == listing(self.schema@.take(i as int)),
            decreases self.schema.len() - i,
        {
            let k = &self.schema[i].0;
            let v = &self.schema[i].1;
            let ghost start = views(r@);
            let ghost f = |e: (String, Table)| k@ + "."@ + e.0@;
            let mut j: usize = 0;
            while j < v.table.len()
                invariant
                    i < self.schema.len(),
                    k == &self.schema@[i as int].0,
                    v == &self.schema@[i as int].1,
                    j <= v.table.len(),
                    f == |e: (String, Table)| k@ + "."@ + e.0@,
                    views(r@) == start + v.table@.take(j as int).map_values(f),
                decreases v.table.len() - j,
            {
                let mut s = copy_string(k);
                s.append(".");
                s.append(v.table[j].0.as_str());
                let ghost before = views(r@);
                r.push(s);
                proof {
                    assert(views(r@) == before.push(k@ + "."@ + v.table@[j as int].0@));
                    assert(v.table@.take(j + 1).map_values(f) =~= v.table@.take(j as int).map_values(f).push(
                        f(v.table@[j as int]),
                    ));
                }
                j = j + 1;
            }
            proof {
                assert(v.table@.take(v.table.len() as int) == v.table@);
                assert(self.schema@.take(i + 1).drop_last() == self.schema@.take(i as int));
                assert(self.schema@.take(i + 1).last() == self.schema@[i as int]);
            }
            i = i + 1;
        }
        proof {
            assert(self.schema@.take(self.schema.len() as int) == self.schema@);
        }
        r
    }
}

/// Once a table is stored, looking it up gives it back.
pub proof fn lemma_get_after_update(
    m: Map<Seq<char>, Map<Seq<char>, Table>>,
    schema: Seq<char>,
    table: Seq<char>,
    content: Table,
)
    ensures
        cached(spec_update(m, schema, table, content), schema, table) == Some(content),
{
}

/// Storing a table leaves every other table, of its schema or of another, as it was.
pub proof fn lemma_update_keeps_others(
    m: Map<Seq<char>, Map<Seq<char>, Table>>,
    schema: Seq<char>,
    table: Seq<char>,
    content: Table,
    other_schema: Seq<char>,
    other_table: Seq<char>,
)
    requires
        other_schema != schema || other_table != table,
    ensures
        cached(spec_update(m, schema, table, content), other_schema, other_table) == cached(m, other_schema, other_table),
{
}

/// After a fetched table is stored, a sync that is not forced serves it from
/// the cache; a forced sync always fetches.
pub proof fn lemma_sync_after_store(
    m: Map<Seq<char>, Map<Seq<char>, Table>>,
    schema: Seq<char>,
    table: Seq<char>,
    content: Table,
    force: Option<bool>,
)
    ensures
        sync_hit(spec_update(m, schema, table, content), schema, table, force) == if force == Some(true) {
            None
        } else {
            Some(content)
        },
{
}

/// Every cached table appears in the listing as `schema.table`.
pub proof fn lemma_listing_complete<T, R>(store: Store<T, R>, schema: Seq<char>, table: Seq<char>)
    requires
        cached(store.tables(), schema, table) is Some,
    ensures
        listing(store.schema@).contains(schema + "."@ + table),
{
    let s = store.schema@;
    crate::assoc::lemma_lookup_some(s, schema);
    let i = choose|i: int| 0 <= i < s.len() && s[i].0@ == schema && s[i].1 == lookup(s, schema)->0;
    let tb = s[i].1.table@;
    crate::assoc::lemma_lookup_some(tb, table);
    let j = choose|j: int| 0 <= j < tb.len() && tb[j].0@ == table && tb[j].1 == lookup(tb, table)->0;
    lemma_listing_has(s, i, j);
}

proof fn lemma_listing_has(s: Seq<(String, Schema)>, i: int, j: int)
    requires
        0 <= i < s.len(),
        0 <= j < s[i].1.table@.len(),
    ensures
        listing(s).contains(s[i].0@ + "."@ + s[i].1.table@[j].0@),
    decreases s.len(),
{
    let x = s[i].0@ + "."@ + s[i].1.table@[j].0@;
    if i == s.len() - 1 {
        let part = s.last().1.table@.map_values(|e: (String, Table)| s.last().0@ + "."@ + e.0@);
        assert(part[j] == x);
        let prev = listing(s.drop_last());
        assert((prev + part)[prev.len() + j] == x);
    } else {
        lemma_listing_has(s.drop_last(), i, j);
        assert(s.drop_last()[i] == s[i]);
        let prev = listing(s.drop_last());
        let k = choose|k: int| 0 <= k < prev.len() && prev[k] == x;
        let part = s.last().1.table@.map_values(|e: (String, Table)| s.last().0@ + "."@ + e.0@);
        assert((prev + part)[k] == x);
    }
}

/// A value bound for a column, with the column's type.
pub struct Val<'a, V> {
    pub value: &'a V,
    pub typ: String,
}

/// One row to insert: the target table, the columns and their placeholders
/// (`$1`, `$2`, ..), the values bound to them, and the fields that go to the
/// variant column.
pub struct Payload<'a, V> {
    pub schema: String,
    pub table: String,
    pub columns: Vec<String>,
    pub fields: Vec<String>,
    pub values: Vec<Val<'a, V>>,
    pub pk: Vec<String>,
    pub variant: Vec<(String, &'a V)>,
}

pub struct PayloadView<V> {
    pub schema: Seq<char>,
    pub table: Seq<char>,
    pub columns: Seq<Seq<char>>,
    pub fields: Seq<Seq<char>>,
    /// Each bound value with the type of its column.
    pub values: Seq<(V, Seq<char>)>,
    pub pk: Seq<Seq<char>>,
    /// The fields without a column, by name, in order.
    pub variant: Seq<(Seq<char>, V)>,
}

pub open spec fn val_view<'a, V>(v: Val<'a, V>) -> (V, Seq<char>) {
    (*v.value, v.typ@)
}

pub open spec fn extra_view<'a, V>(e: (String, &'a V)) -> (Seq<char>, V) {
    (e.0@, *e.1)
}

impl<'a, V> View for Payload<'a, V> {
    type V = PayloadView<V>;

    open spec fn view(&self) -> PayloadView<V> {
        PayloadView {
            schema: self.schema@,
            table: self.table@,
            columns: views(self.columns@),
            fields: views(self.fields@),
            values: self.values@.map_values(|v: Val<'a, V>| val_view(v)),
            pk: views(self.pk@),
            variant: self.variant@.map_values(|e: (String, &'a V)| extra_view(e)),
        }
    }
}

} // verus!
