//! The PostgreSQL side: the insert statement of a planned row, how each of
//! its values is bound, and how the catalogue's description of a table's
//! columns becomes a cached table.

use vstd::prelude::*;
use vstd::string::StringExecFns;
use crate::assoc::{as_map, keys_unique, assoc_insert};
use crate::schema::{Column, Table, TableView, Entity, Payload, Val};
use crate::text::{views, join, owned, eq_str, copy_string, join_strings, occurs_in, lemma_join_occurs, lemma_occurs_extend};

verus! {

/// One row of the catalogue query: a column of the table, its nullability
/// (`YES` or `NO`), its data type, and whether it is part of the primary key.
pub struct ColumnRow {
    pub column_name: String,
    pub is_nullable: String,
    pub data_type: String,
    pub pk: bool,
}

/// The table that the catalogue rows describe: each row a column, a `jsonb`
/// column being a variant column, primary key columns in row order.
pub open spec fn rows_table(rows: Seq<ColumnRow>) -> TableView
    decreases rows.len(),
{
    if rows.len() == 0 {
        TableView { primary_key: Seq::empty(), variant: Set::empty(), column: Map::empty() }
    } else {
        let t = rows_table(rows.drop_last());
        let r = rows.last();
        TableView {
            primary_key: if r.pk { t.primary_key.push(r.column_name@) } else { t.primary_key },
            variant: if r.data_type@ == "jsonb"@ { t.variant.insert(r.column_name@) } else { t.variant },
            column: t.column.insert(r.column_name@, Column { nullable: r.is_nullable@ == "YES"@, data_type: r.data_type }),
        }
    }
}

/// The cached description of table `table` of schema `schema`, built from
/// the catalogue rows of its columns.
pub fn entity_from_rows(schema: &String, table: &String, rows: &Vec<ColumnRow>) -> (r: Entity)
    ensures
        r.schema@ == schema@,
        r.table@ == table@,
        r.content@ == rows_table(rows@),
        r.content.wf(),
{
    let mut primary_key: Vec<String> = Vec::new();
    let mut variant: Vec<String> = Vec::new();
    let mut column: Vec<(String, Column)> = Vec::new();
    proof {
        assert(views(variant@).to_set() =~= Set::<Seq<char>>::empty());
        assert(as_map(column@) =~= Map::<Seq<char>, Column>::empty());
        assert(rows@.take(0) == Seq::<ColumnRow>::empty());
    }
    let mut i: usize = 0;
    while i < rows.len()
        invariant
            i <= rows.len(),
            keys_unique(column@),
            views(variant@).no_duplicates(),
            views(primary_key@) == rows_table(rows@.take(i as int)).primary_key,
            views(variant@).to_set() == rows_table(rows@.take(i as int)).variant,
            as_map(column@) == rows_table(rows@.take(i as int)).column,
        decreases rows.len() - i,
    {
        let r = &rows[i];
        proof {
            assert(rows@.take(i + 1).drop_last() == rows@.take(i as int));
            assert(rows@.take(i + 1).last() == rows@[i as int]);
        }
        let ghost v0 = views(variant@);
        if eq_str(&r.data_type, "jsonb") {
            let t = Table { primary_key: Vec::new(), variant, column: Vec::new() };
            let present = t.has_variant(&r.column_name);
            variant = t.variant;
            if !present {
                variant.push(copy_string(&r.column_name));
                proof {
                    assert(views(variant@) == v0.push(r.column_name@));
                    crate::text::lemma_push_to_set(v0, r.column_name@);
                    assert forall|k: int| 0 <= k < v0.len() implies v0[k] != r.column_name@ by {
                        if v0[k] == r.column_name@ {
                            assert(v0.to_set().contains(v0[k]));
                        }
                    }
                }
            } else {
                assert(v0.to_set().insert(r.column_name@) =~= v0.to_set());
            }
        }
        let nullable = eq_str(&r.is_nullable, "YES");
        assoc_insert(&mut column, copy_string(&r.column_name), Column { nullable, data_type: r.data_type.clone() });
        let ghost p0 = views(primary_key@);
        if r.pk {
            primary_key.push(copy_string(&r.column_name));
            assert(views(primary_key@) == p0.push(r.column_name@));
        }
        i = i + 1;
    }
    proof {
        assert(rows@.take(rows.len() as int) == rows@);
    }
    Entity {
        schema: copy_string(schema),
        table: copy_string(table),
        content: Table { primary_key, variant, column },
    }
}

/// Some catalogue row names the column `n`.
pub open spec fn row_named(rows: Seq<ColumnRow>, n: Seq<char>) -> bool {
    exists|i: int| 0 <= i < rows.len() && (#[trigger] rows[i]).column_name@ == n
}

/// Some catalogue row names the column `n` and gives it the type `jsonb`.
pub open spec fn jsonb_row_named(rows: Seq<ColumnRow>, n: Seq<char>) -> bool {
    exists|i: int| 0 <= i < rows.len() && (#[trigger] rows[i]).column_name@ == n && rows[i].data_type@ == "jsonb"@
}

/// The table read from the catalogue has a column for each name the rows
/// give and no other; each column takes its nullability (`YES` or not) and
/// data type from the last row that names it, whatever that row's primary
/// key flag; its variant columns are exactly those some row types `jsonb`;
/// its primary key lists the names of the rows so flagged, in row order.
pub proof fn lemma_rows_table(rows: Seq<ColumnRow>)
    ensures
        forall|n: Seq<char>| #[trigger] rows_table(rows).column.dom().contains(n) == row_named(rows, n),
        forall|i: int|
            0 <= i < rows.len() && (forall|j: int| i < j < rows.len() ==> (#[trigger] rows[j]).column_name@ != rows[i].column_name@)
                ==> rows_table(rows).column[(#[trigger] rows[i]).column_name@] == (Column {
                nullable: rows[i].is_nullable@ == "YES"@,
                data_type: rows[i].data_type,
            }),
        forall|n: Seq<char>| #[trigger] rows_table(rows).variant.contains(n) == jsonb_row_named(rows, n),
        rows_table(rows).primary_key == rows.filter(|r: ColumnRow| r.pk).map_values(|r: ColumnRow| r.column_name@),
    decreases rows.len(),
{
    reveal_with_fuel(Seq::filter, 1);
    if rows.len() == 0 {
        assert(rows.filter(|r: ColumnRow| r.pk).map_values(|r: ColumnRow| r.column_name@) =~= Seq::<Seq<char>>::empty());
    } else {
        let d = rows.drop_last();
        let n0 = rows.len() - 1;
        let last = rows[n0];
        lemma_rows_table(d);
        let t = rows_table(rows);
        let t0 = rows_table(d);
        assert(rows.last() == last);
        assert forall|k: int| 0 <= k < d.len() implies d[k] == rows[k] by {}
        assert forall|n: Seq<char>| #[trigger] t.column.dom().contains(n) == row_named(rows, n) by {
            if row_named(rows, n) {
                let i = choose|i: int| 0 <= i < rows.len() && (#[trigger] rows[i]).column_name@ == n;
                if i < n0 {
                    assert(d[i] == rows[i]);
                    assert(row_named(d, n));
                }
            }
            if row_named(d, n) {
                let i = choose|i: int| 0 <= i < d.len() && (#[trigger] d[i]).column_name@ == n;
                assert(rows[i] == d[i]);
            }
            if n == last.column_name@ {
                assert(rows[n0].column_name@ == n);
            }
        }
        assert forall|i: int|
            0 <= i < rows.len() && (forall|j: int| i < j < rows.len() ==> (#[trigger] rows[j]).column_name@ != rows[i].column_name@)
            implies t.column[(#[trigger] rows[i]).column_name@] == (Column {
                nullable: rows[i].is_nullable@ == "YES"@,
                data_type: rows[i].data_type,
            }) by {
            if i < n0 {
                assert(rows[n0].column_name@ != rows[i].column_name@);
                assert(d[i] == rows[i]);
                assert forall|j: int| i < j < d.len() implies (#[trigger] d[j]).column_name@ != d[i].column_name@ by {
                    assert(d[j] == rows[j]);
                }
            }
        }
        assert forall|n: Seq<char>| #[trigger] t.variant.contains(n) == jsonb_row_named(rows, n) by {
            if jsonb_row_named(rows, n) {
                let i = choose|i: int| 0 <= i < rows.len() && (#[trigger] rows[i]).column_name@ == n && rows[i].data_type@ == "jsonb"@;
                if i < n0 {
                    assert(d[i] == rows[i]);
                    assert(jsonb_row_named(d, n));
                }
            }
            if jsonb_row_named(d, n) {
                let i = choose|i: int| 0 <= i < d.len() && (#[trigger] d[i]).column_name@ == n && d[i].data_type@ == "jsonb"@;
                assert(rows[i] == d[i]);
            }
            if n == last.column_name@ && last.data_type@ == "jsonb"@ {
                assert(rows[n0].column_name@ == n);
            }
        }
        let f = rows.filter(|r: ColumnRow| r.pk);
        let f0 = d.filter(|r: ColumnRow| r.pk);
        if last.pk {
            assert(f == f0.push(last));
            assert(f.map_values(|r: ColumnRow| r.column_name@) =~= f0.map_values(|r: ColumnRow| r.column_name@).push(last.column_name@));
        } else {
            assert(f == f0);
        }
    }
}

/// The insert statement of a planned row: the table, its columns, and the
/// placeholders of their values.
pub open spec fn insert_statement(schema: Seq<char>, table: Seq<char>, columns: Seq<Seq<char>>, fields: Seq<Seq<char>>) -> Seq<char> {
    "insert into "@ + schema + "."@ + table + " ("@ + join(columns, ", "@) + ") values ("@ + join(fields, ", "@) + ")"@
}

/// How a value is bound to its placeholder.
#[derive(Debug, Clone, Copy, PartialEq, Eq)]
pub enum Bind {
    I64,
    F64,
    Str,
    Bool,
    Date,
    Json,
}

/// The binding of a value whose column has type `typ`: `i64`, `f64`, `str`,
/// `bool` and `date` by their names, anything else as JSON.
pub open spec fn bind_of(typ: Seq<char>) -> Bind {
    if typ == "i64"@ {
        Bind::I64
    } else if typ == "f64"@ {
        Bind::F64
    } else if typ == "str"@ {
        Bind::Str
    } else if typ == "bool"@ {
        Bind::Bool
    } else if typ == "date"@ {
        Bind::Date
    } else {
        Bind::Json
    }
}

/// The binding of a value whose column has type `typ`.
pub fn bind_kind(typ: &String) -> (r: Bind)
    ensures
        r == bind_of(typ@),
{
    if eq_str(typ, "i64") {
        Bind::I64
    } else if eq_str(typ, "f64") {
        Bind::F64
    } else if eq_str(typ, "str") {
        Bind::Str
    } else if eq_str(typ, "bool") {
        Bind::Bool
    } else if eq_str(typ, "date") {
        Bind::Date
    } else {
        Bind::Json
    }
}

impl<'a, V> Payload<'a, V> {
    /// The insert statement of the row.
    pub fn upsert_sql(&self) -> (r: String)
        ensures
            r@ == insert_statement(self.schema@, self.table@, views(self.columns@), views(self.fields@)),
    {
        let cs = join_strings(&self.columns, ", ");
        let fs = join_strings(&self.fields, ", ");
        let mut s = owned("insert into ");
        s.append(self.schema.as_str());
        s.append(".");
        s.append(self.table.as_str());
        s.append(" (");
        s.append(cs.as_str());
        s.append(") values (");
        s.append(fs.as_str());
        s.append(")");
        s
    }

    /// How each placeholder is bound, in order: the values by the types of
    /// their columns, then the variant fields as one JSON object.
    pub fn binds(&self) -> (r: Vec<Bind>)
        ensures
            r@ == self.values@.map_values(|v: Val<'a, V>| bind_of(v.typ@)).push(Bind::Json),
    {
        let mut r: Vec<Bind> = Vec::new();
        let mut i: usize = 0;
        while i < self.values.len()
            invariant
                i <= self.values.len(),
                r@ == self.values@.take(i as int).map_values(|v: Val<'a, V>| bind_of(v.typ@)),
            decreases self.values.len() - i,
        {
            r.push(bind_kind(&self.values[i].typ));
            proof {
                assert(self.values@.take(i + 1).map_values(|v: Val<'a, V>| bind_of(v.typ@)) =~= self.values@.take(
                    i as int,
                ).map_values(|v: Val<'a, V>| bind_of(v.typ@)).push(bind_of(self.values@[i as int].typ@)));
            }
            i = i + 1;
        }
        proof {
            assert(self.values@.take(self.values.len() as int) == self.values@);
        }
        r.push(Bind::Json);
        r
    }
}

/// A planned row binds one value per placeholder of its statement: the
/// column values by their types, then the variant fields as JSON.
pub proof fn lemma_binds_match_placeholders<'a, V>(
    p: Payload<'a, V>,
    schema: Seq<char>,
    table: Seq<char>,
    t: Table,
    var: Seq<char>,
    e: Seq<(String, V)>,
)
    requires
        p@ == crate::data::row_payload(schema, table, t, var, e),
    ensures
        p.values@.map_values(|v: Val<'a, V>| bind_of(v.typ@)).push(Bind::Json).len() == views(p.fields@).len(),
        p.values@.map_values(|v: Val<'a, V>| bind_of(v.typ@)).push(Bind::Json).last() is Json,
{
    crate::data::lemma_row_placeholders(schema, table, t, var, e);
    assert(p@.values.len() == p.values@.len());
}

/// The insert statement starts with `insert into schema.table (`, and names
/// every column and every placeholder of the row.
pub proof fn lemma_insert_statement(schema: Seq<char>, table: Seq<char>, columns: Seq<Seq<char>>, fields: Seq<Seq<char>>)
    ensures
        ({
            let st = insert_statement(schema, table, columns, fields);
            let head = "insert into "@ + schema + "."@ + table + " ("@;
            &&& st.len() >= head.len() && st.subrange(0, head.len() as int) == head
            &&& forall|i: int| 0 <= i < columns.len() ==> occurs_in(st, #[trigger] columns[i])
            &&& forall|i: int| 0 <= i < fields.len() ==> occurs_in(st, #[trigger] fields[i])
        }),
{
    let head = "insert into "@ + schema + "."@ + table + " ("@;
    let mid = ") values ("@;
    let st = insert_statement(schema, table, columns, fields);
    assert(st =~= head + join(columns, ", "@) + (mid + join(fields, ", "@) + ")"@));
    assert(st.subrange(0, head.len() as int) =~= head);
    assert forall|i: int| 0 <= i < columns.len() implies occurs_in(st, #[trigger] columns[i]) by {
        lemma_join_occurs(columns, ", "@, i);
        lemma_occurs_extend(head, join(columns, ", "@), mid + join(fields, ", "@) + ")"@, columns[i]);
    }
    assert forall|i: int| 0 <= i < fields.len() implies occurs_in(st, #[trigger] fields[i]) by {
        lemma_join_occurs(fields, ", "@, i);
        lemma_occurs_extend(head + join(columns, ", "@) + mid, join(fields, ", "@), ")"@, fields[i]);
        assert(head + join(columns, ", "@) + mid + join(fields, ", "@) + ")"@ =~= st);
    }
}

/// Values of the types `i64`, `f64`, `str`, `bool` and `date` are bound as
/// such, and a value of any other type as JSON.
pub proof fn lemma_bind_names(typ: Seq<char>)
    ensures
        typ == "i64"@ ==> bind_of(typ) == Bind::I64,
        typ == "f64"@ ==> bind_of(typ) == Bind::F64,
        typ == "str"@ ==> bind_of(typ) == Bind::Str,
        typ == "bool"@ ==> bind_of(typ) == Bind::Bool,
        typ == "date"@ ==> bind_of(typ) == Bind::Date,
        typ != "i64"@ && typ != "f64"@ && typ != "str"@ && typ != "bool"@ && typ != "date"@ ==> bind_of(typ) == Bind::Json,
{
    reveal_strlit("i64");
    reveal_strlit("f64");
    reveal_strlit("str");
    reveal_strlit("bool");
    reveal_strlit("date");
    assert("i64"@[0] != "f64"@[0] && "i64"@[0] != "str"@[0]);
    assert("f64"@[0] != "str"@[0]);
    assert("i64"@.len() != "bool"@.len() && "i64"@.len() != "date"@.len());
    assert("f64"@.len() != "bool"@.len() && "f64"@.len() != "date"@.len());
    assert("str"@.len() != "bool"@.len() && "str"@.len() != "date"@.len());
    assert("bool"@[0] != "date"@[0]);
}

} // verus!
