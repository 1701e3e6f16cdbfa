//! DDL generation: turns a schema description (tables, their columns,
//! primary keys and indexes) into `CREATE TYPE`, `CREATE TABLE` and
//! `CREATE INDEX` statements.

use vstd::prelude::*;
use vstd::string::StringExecFns;
use crate::assoc::{lookup, find_index, assoc_get, keys_ascending, is_ascending};
use crate::text::{views, join, occurs_in, lemma_occurs_middle, lemma_occurs_extend, lemma_join_occurs, uppercase_of, to_uppercase, owned, eq_str, copy_string, clone_strings, join_strings};

verus! {

/// The type of a column: a literal SQL type, a reference to the column of
/// another table, or an enumeration of labels.
#[allow(non_camel_case_types)]
pub enum Typ {
    literal(String),
    references((String, String)),
    variant(Vec<String>),
}

/// A column of the description.
pub struct Field {
    pub typ: Typ,
    pub default: Option<String>,
    pub uniq: bool,
    pub notnull: bool,
}

/// An index of the description.
pub struct Index {
    pub column: Vec<String>,
    pub typ: Option<String>,
    pub covering: Option<Vec<String>>,
    /// Storage parameters, in the order they are rendered.
    pub with: Option<Vec<(String, String)>>,
    pub where_: Option<String>,
}

/// A table of the description, its columns in the order they are rendered.
pub struct Table {
    pub column: Vec<(String, Field)>,
    pub primary: Option<Vec<String>>,
    pub index: Option<Vec<Index>>,
}

/// One rendered column definition.
pub struct Cols {
    pub name: String,
    pub typ: String,
    /// Constraints that follow the type.
    pub x: Vec<String>,
    /// The `REFERENCES` clause, if any.
    pub refs: Option<String>,
    /// The labels of an enumerated column.
    pub enu: Option<Vec<String>>,
}

pub struct ColsView {
    pub name: Seq<char>,
    pub typ: Seq<char>,
    pub x: Seq<Seq<char>>,
    pub refs: Option<Seq<char>>,
    pub enu: Option<Seq<Seq<char>>>,
}

pub open spec fn opt_view(o: Option<String>) -> Option<Seq<char>> {
    match o {
        Some(s) => Some(s@),
        None => None,
    }
}

pub open spec fn opt_views(o: Option<Vec<String>>) -> Option<Seq<Seq<char>>> {
    match o {
        Some(v) => Some(views(v@)),
        None => None,
    }
}

impl View for Cols {
    type V = ColsView;

    open spec fn view(&self) -> ColsView {
        ColsView {
            name: self.name@,
            typ: self.typ@,
            x: views(self.x@),
            refs: opt_view(self.refs),
            enu: opt_views(self.enu),
        }
    }
}

/// The field that a `references` type points at, looked up by table and column name.
pub open spec fn referenced_field(typ: Typ, schema: Seq<(String, Table)>) -> Option<Field> {
    match typ {
        Typ::references(tc) => match lookup(schema, tc.0@) {
            Some(t) => lookup(t.column@, tc.1@),
            None => None,
        },
        _ => None,
    }
}

/// A reference names an existing column whose type is a literal one.
pub open spec fn field_resolves(field: Field, schema: Seq<(String, Table)>) -> bool {
    field.typ is references ==> (referenced_field(field.typ, schema) matches Some(f) && f.typ is literal)
}

/// Every reference of every table resolves.
pub open spec fn schema_resolves(schema: Seq<(String, Table)>) -> bool {
    forall|i: int, j: int|
        0 <= i < schema.len() && 0 <= j < schema[i].1.column@.len() ==> #[trigger] field_resolves(
            schema[i].1.column@[j].1,
            schema,
        )
}

/// The type a referencing column takes from the literal type it points at.
pub open spec fn reference_base(x: Seq<char>) -> Seq<char> {
    if x == "serial"@ {
        "integer"@
    } else if x == "bigserial"@ {
        "biginteger"@
    } else {
        x
    }
}

/// The SQL type of column `name` of table `table`.
pub open spec fn column_type(table: Seq<char>, name: Seq<char>, field: Field, schema: Seq<(String, Table)>) -> Seq<char> {
    match field.typ {
        Typ::literal(l) => uppercase_of(l@),
        Typ::references(_) => match referenced_field(field.typ, schema) {
            Some(f) => match f.typ {
                Typ::literal(x) => uppercase_of(reference_base(x@)),
                _ => seq![],
            },
            None => seq![],
        },
        Typ::variant(_) => table + "_"@ + name,
    }
}

/// A default as written in the column definition: quoted and cast for JSONB.
pub open spec fn default_value(typ: Seq<char>, d: Seq<char>) -> Seq<char> {
    if typ == "JSONB"@ {
        "'"@ + d + "'::JSONB"@
    } else {
        d
    }
}

/// The constraints after the type: `NOT NULL`, `DEFAULT ..`, `UNIQ`, in that order.
pub open spec fn column_options(typ: Seq<char>, field: Field) -> Seq<Seq<char>> {
    (if field.notnull { seq!["NOT NULL"@] } else { Seq::<Seq<char>>::empty() }) + (match field.default {
        Some(d) => seq!["DEFAULT "@ + default_value(typ, d@)],
        None => Seq::<Seq<char>>::empty(),
    }) + (if field.uniq { seq!["UNIQ"@] } else { Seq::<Seq<char>>::empty() })
}

pub open spec fn column_refs(typ: Typ) -> Option<Seq<char>> {
    match typ {
        Typ::references(tc) => Some("REFERENCES "@ + tc.0@ + " ("@ + tc.1@ + ")"@),
        _ => None,
    }
}

pub open spec fn column_enum(typ: Typ) -> Option<Seq<Seq<char>>> {
    match typ {
        Typ::variant(v) => Some(views(v@)),
        _ => None,
    }
}

/// The rendering of column `name` of table `table`.
pub open spec fn spec_gen_columns(table: Seq<char>, name: Seq<char>, field: Field, schema: Seq<(String, Table)>) -> ColsView {
    let typ = column_type(table, name, field, schema);
    ColsView {
        name: name,
        typ: typ,
        x: column_options(typ, field),
        refs: column_refs(field.typ),
        enu: column_enum(field.typ),
    }
}

/// The line of a column definition, as the generator writes it: indented,
/// the column's name and its type separated by a blank. The constraints in
/// `x` and the clause in `refs` are carried by `Cols` but do not appear in
/// the line.
pub open spec fn cols_line(c: ColsView) -> Seq<char> {
    "    "@ + c.name + " "@ + c.typ
}

impl Cols {
    /// The column definition line, as it stands in `CREATE TABLE`.
    pub fn to_string(&self) -> (r: String)
        ensures
            r@ == cols_line(self@),
    {
        let mut r = owned("    ");
        r.append(self.name.as_str());
        r.append(" ");
        r.append(self.typ.as_str());
        r
    }
}

/// The SQL type of a column that references the column `c` of table `t`.
fn referenced_type(t: &String, c: &String, schema: &Vec<(String, Table)>) -> (r: String)
    requires
        lookup(schema@, t@) matches Some(tbl) && (lookup(tbl.column@, c@) matches Some(f)
            && f.typ is literal),
    ensures
        r@ == (match lookup(lookup(schema@, t@)->0.column@, c@)->0.typ {
            Typ::literal(x) => uppercase_of(reference_base(x@)),
            _ => seq![],
        }),
{
    let ti = find_index(schema, t).unwrap();
    let tbl = &schema[ti].1;
    let ci = find_index(&tbl.column, c).unwrap();
    match &tbl.column[ci].1.typ {
        Typ::literal(x) => {
            if eq_str(x, "serial") {
                proof {
                    reveal_strlit("serial");
                }
                to_uppercase("integer")
            } else if eq_str(x, "bigserial") {
                to_uppercase("biginteger")
            } else {
                to_uppercase(x.as_str())
            }
        },
        _ => {
            proof {
                assert(false);
            }
            String::new()
        },
    }
}

fn field_resolves_exec(field: &Field, schema: &Vec<(String, Table)>) -> (r: bool)
    ensures
        r == field_resolves(*field, schema@),
{
    match &field.typ {
        Typ::references(tc) => match assoc_get(schema, &tc.0) {
            Some(t) => match assoc_get(&t.column, &tc.1) {
                Some(f) => match &f.typ {
                    Typ::literal(_) => true,
                    _ => false,
                },
                None => false,
            },
            None => false,
        },
        _ => true,
    }
}

/// Whether every reference of every table names an existing column whose
/// type is a literal one, as `gen_columns` and `gen_table` need.
pub fn references_resolve(schema: &Vec<(String, Table)>) -> (r: bool)
    ensures
        r == schema_resolves(schema@),
{
    let mut i: usize = 0;
    while i < schema.len()
        invariant
            i <= schema.len(),
            forall|a: int, b: int|
                0 <= a < i && 0 <= b < schema@[a].1.column@.len() ==> #[trigger] field_resolves(
                    schema@[a].1.column@[b].1,
                    schema@,
                ),
        decreases schema.len() - i,
    {
        let cols = &schema[i].1.column;
        let mut j: usize = 0;
        while j < cols.len()
            invariant
                i < schema.len(),
                cols == &schema@[i as int].1.column,
                j <= cols.len(),
                forall|a: int, b: int|
                    0 <= a < i && 0 <= b < schema@[a].1.column@.len() ==> #[trigger] field_resolves(
                        schema@[a].1.column@[b].1,
                        schema@,
                    ),
                forall|b: int| 0 <= b < j ==> #[trigger] field_resolves(cols@[b].1, schema@),
            decreases cols.len() - j,
        {
            if !field_resolves_exec(&cols[j].1, schema) {
                return false;
            }
            j = j + 1;
        }
        i = i + 1;
    }
    true
}

/// Every index's storage parameters are in strictly ascending key order.
pub open spec fn index_params_ascending(ixs: Option<Vec<Index>>) -> bool {
    ixs matches Some(v) ==> forall|m: int|
        0 <= m < v@.len() ==> (#[trigger] v@[m].with matches Some(w) ==> keys_ascending(w@))
}

/// The description is ordered as its maps are: tables, the columns of each
/// table, and each index's storage parameters in strictly ascending key order.
pub open spec fn ascending_description(schema: Seq<(String, Table)>) -> bool {
    &&& keys_ascending(schema)
    &&& forall|i: int|
        0 <= i < schema.len() ==> keys_ascending(#[trigger] schema[i].1.column@) && index_params_ascending(
            schema[i].1.index,
        )
}

fn index_params_ascending_exec(ixs: &Option<Vec<Index>>) -> (r: bool)
    ensures
        r == index_params_ascending(*ixs),
{
    match ixs {
        Some(v) => {
            let mut m: usize = 0;
            while m < v.len()
                invariant
                    m <= v.len(),
                    *ixs == Some(*v),
                    forall|k: int| 0 <= k < m ==> (#[trigger] v@[k].with matches Some(w) ==> keys_ascending(w@)),
                decreases v.len() - m,
            {
                if let Some(w) = &v[m].with {
                    if !is_ascending(w) {
                        assert(v@[m as int].with == Some(*w));
                        return false;
                    }
                }
                m = m + 1;
            }
            true
        },
        None => true,
    }
}

/// Whether the description is ordered as its maps are.
pub fn is_ascending_description(schema: &Vec<(String, Table)>) -> (r: bool)
    ensures
        r == ascending_description(schema@),
{
    if !is_ascending(schema) {
        return false;
    }
    let mut i: usize = 0;
    while i < schema.len()
        invariant
            i <= schema.len(),
            keys_ascending(schema@),
            forall|k: int|
                0 <= k < i ==> keys_ascending(#[trigger] schema@[k].1.column@) && index_params_ascending(
                    schema@[k].1.index,
                ),
        decreases schema.len() - i,
    {
        if !is_ascending(&schema[i].1.column) {
            return false;
        }
        if !index_params_ascending_exec(&schema[i].1.index) {
            return false;
        }
        assert forall|k: int| 0 <= k < i + 1 implies keys_ascending(#[trigger] schema@[k].1.column@) && index_params_ascending(
            schema@[k].1.index,
        ) by {
            if k == i {
            }
        }
        i = i + 1;
    }
    true
}

/// Renders column `name` of table `table`: its SQL type, constraints,
/// reference clause and enumeration labels.
pub fn gen_columns(table: &String, name: &String, field: &Field, schema: &Vec<(String, Table)>) -> (r: Cols)
    requires
        field_resolves(*field, schema@),
    ensures
        r@ == spec_gen_columns(table@, name@, *field, schema@),
{
    let mut enu: Option<Vec<String>> = None;
    let mut refs: Option<String> = None;
    let mut x: Vec<String> = Vec::new();
    let typ = match &field.typ {
        Typ::literal(l) => to_uppercase(l.as_str()),
        Typ::references(tc) => {
            let mut s = owned("REFERENCES ");
            s.append(tc.0.as_str());
            s.append(" (");
            s.append(tc.1.as_str());
            s.append(")");
            refs = Some(s);
            referenced_type(&tc.0, &tc.1, schema)
        },
        Typ::variant(v) => {
            enu = Some(clone_strings(v));
            let mut s = copy_string(table);
            s.append("_");
            s.append(name.as_str());
            s
        },
    };
    let ghost t = typ@;
    if field.notnull {
        x.push(owned("NOT NULL"));
    }
    assert(views(x@) == (if field.notnull { seq!["NOT NULL"@] } else { Seq::<Seq<char>>::empty() }));
    let ghost x0 = views(x@);
    if let Some(d) = &field.default {
        let v = if eq_str(&typ, "JSONB") {
            let mut q = owned("'");
            q.append(d.as_str());
            q.append("'::JSONB");
            q
        } else {
            copy_string(d)
        };
        let mut s = owned("DEFAULT ");
        s.append(v.as_str());
        x.push(s);
        assert(views(x@) == x0.push("DEFAULT "@ + default_value(t, d@)));
    } else {
        assert(views(x@) == x0 + Seq::<Seq<char>>::empty());
    }
    let ghost x1 = views(x@);
    if field.uniq {
        x.push(owned("UNIQ"));
        assert(views(x@) == x1.push("UNIQ"@));
    } else {
        assert(views(x@) == x1 + Seq::<Seq<char>>::empty());
    }
    let r = Cols { name: copy_string(name), typ, x, refs, enu };
    proof {
        assert(views(r.x@) == column_options(t, *field));
    }
    r
}

/// A label quoted as an SQL string literal.
pub open spec fn quoted(v: Seq<Seq<char>>) -> Seq<Seq<char>> {
    v.map_values(|s: Seq<char>| "'"@ + s + "'"@)
}

/// The `CREATE TYPE` statement of an enumerated column, if it is one.
pub open spec fn enum_statement(c: ColsView) -> Seq<Seq<char>> {
    match c.enu {
        Some(en) => seq!["CREATE TYPE "@ + c.typ + " AS ENUM ("@ + join(quoted(en), ", "@) + ");"@],
        None => Seq::<Seq<char>>::empty(),
    }
}

/// The renderings of the columns of table `k`, in order.
pub open spec fn table_columns(k: Seq<char>, cols: Seq<(String, Field)>, schema: Seq<(String, Table)>) -> Seq<ColsView> {
    cols.map_values(|e: (String, Field)| spec_gen_columns(k, e.0@, e.1, schema))
}

/// The `CREATE TYPE` statements of the enumerated columns, in column order.
pub open spec fn enum_statements(cs: Seq<ColsView>) -> Seq<Seq<char>>
    decreases cs.len(),
{
    if cs.len() == 0 {
        Seq::<Seq<char>>::empty()
    } else {
        enum_statements(cs.drop_last()) + enum_statement(cs.last())
    }
}

/// The primary key line, if there is a primary key.
pub open spec fn primary_line(primary: Option<Vec<String>>) -> Seq<Seq<char>> {
    match primary {
        Some(p) => seq!["    PRIMARY KEY ("@ + join(views(p@), ", "@) + ")"@],
        None => Seq::<Seq<char>>::empty(),
    }
}

/// The lines inside `CREATE TABLE`: the column lines, then the primary key.
pub open spec fn table_body(cs: Seq<ColsView>, primary: Option<Vec<String>>) -> Seq<Seq<char>> {
    cs.map_values(|c: ColsView| cols_line(c)) + primary_line(primary)
}

pub open spec fn create_table(k: Seq<char>, cs: Seq<ColsView>, primary: Option<Vec<String>>) -> Seq<char> {
    "CREATE TABLE "@ + k + " (\n"@ + join(table_body(cs, primary), ",\n"@) + "\n);"@
}

/// Storage parameters as `key = value`.
pub open spec fn with_pairs(w: Seq<(String, String)>) -> Seq<Seq<char>> {
    w.map_values(|e: (String, String)| e.0@ + " = "@ + e.1@)
}

pub open spec fn using_clause(t: Option<String>) -> Seq<Seq<char>> {
    match t {
        Some(t) => seq!["USING "@ + uppercase_of(t@)],
        None => Seq::<Seq<char>>::empty(),
    }
}

pub open spec fn covering_clause(c: Option<Vec<String>>) -> Seq<Seq<char>> {
    match c {
        Some(c) => seq!["INCLUDE ("@ + join(views(c@), ", "@) + ")"@],
        None => Seq::<Seq<char>>::empty(),
    }
}

pub open spec fn with_clause(w: Option<Vec<(String, String)>>) -> Seq<Seq<char>> {
    match w {
        Some(w) => seq!["WITH ("@ + join(with_pairs(w@), ", "@) + ")"@],
        None => Seq::<Seq<char>>::empty(),
    }
}

pub open spec fn where_clause(w: Option<String>) -> Seq<Seq<char>> {
    match w {
        Some(w) => seq!["WHERE "@ + w@],
        None => Seq::<Seq<char>>::empty(),
    }
}

/// The clauses of an index after its name, in order.
pub open spec fn index_clauses(ix: Index) -> Seq<Seq<char>> {
    using_clause(ix.typ) + seq!["("@ + join(views(ix.column@), ", "@) + ")"@] + covering_clause(
        ix.covering,
    ) + with_clause(ix.with) + where_clause(ix.where_)
}

/// The name of an index: the table and the indexed columns.
pub open spec fn index_name(k: Seq<char>, ix: Index) -> Seq<char> {
    "idx_"@ + k + "_"@ + join(views(ix.column@), "_"@)
}

pub open spec fn index_statement(k: Seq<char>, ix: Index) -> Seq<char> {
    "CREATE INDEX "@ + index_name(k, ix) + " on "@ + k + " "@ + join(index_clauses(ix), " "@) + ";"@
}

pub open spec fn index_statements(k: Seq<char>, ixs: Option<Vec<Index>>) -> Seq<Seq<char>> {
    match ixs {
        Some(v) => v@.map_values(|ix: Index| index_statement(k, ix)),
        None => Seq::<Seq<char>>::empty(),
    }
}

/// The statements of table `k`: the enumeration types of its columns, the
/// table, then its indexes.
pub open spec fn table_statements(k: Seq<char>, t: Table, schema: Seq<(String, Table)>) -> Seq<Seq<char>> {
    let cs = table_columns(k, t.column@, schema);
    enum_statements(cs) + seq![create_table(k, cs, t.primary)] + index_statements(k, t.index)
}

/// The statements of the tables of `tables`, table after table.
pub open spec fn schema_statements(tables: Seq<(String, Table)>, schema: Seq<(String, Table)>) -> Seq<Seq<char>>
    decreases tables.len(),
{
    if tables.len() == 0 {
        Seq::<Seq<char>>::empty()
    } else {
        schema_statements(tables.drop_last(), schema) + table_statements(
            tables.last().0@,
            tables.last().1,
            schema,
        )
    }
}

#[verifier::rlimit(40)]
fn enum_type_statement(typ: &String, labels: &Vec<String>) -> (r: String)
    ensures
        r@ == "CREATE TYPE "@ + typ@ + " AS ENUM ("@ + join(quoted(views(labels@)), ", "@) + ");"@,
{
    let mut q: Vec<String> = Vec::new();
    let mut i: usize = 0;
    while i < labels.len()
        invariant
            i <= labels.len(),
            views(q@) == quoted(views(labels@)).take(i as int),
        decreases labels.len() - i,
    {
        let mut s = owned("'");
        s.append(labels[i].as_str());
        s.append("'");
        let ghost prev = q@;
        q.push(s);
        proof {
            assert(views(q@) == views(prev).push("'"@ + labels@[i as int]@ + "'"@));
            assert(quoted(views(labels@)).take(i + 1) == quoted(views(labels@)).take(i as int).push(
                "'"@ + labels@[i as int]@ + "'"@,
            ));
        }
        i = i + 1;
    }
    proof {
        assert(quoted(views(labels@)).take(labels.len() as int) == quoted(views(labels@)));
    }
    let m = join_strings(&q, ", ");
    let mut r = owned("CREATE TYPE ");
    r.append(typ.as_str());
    r.append(" AS ENUM (");
    r.append(m.as_str());
    r.append(");");
    r
}

fn create_table_statement(k: &String, cs: &Vec<String>) -> (r: String)
    ensures
        r@ == "CREATE TABLE "@ + k@ + " (\n"@ + join(views(cs@), ",\n"@) + "\n);"@,
{
    let body = join_strings(cs, ",\n");
    let mut r = owned("CREATE TABLE ");
    r.append(k.as_str());
    r.append(" (\n");
    r.append(body.as_str());
    r.append("\n);");
    r
}

fn with_statement(w: &Vec<(String, String)>) -> (r: String)
    ensures
        r@ == "WITH ("@ + join(with_pairs(w@), ", "@) + ")"@,
{
    let mut acc: Vec<String> = Vec::new();
    let mut i: usize = 0;
    while i < w.len()
        invariant
            i <= w.len(),
            views(acc@) == with_pairs(w@).take(i as int),
        decreases w.len() - i,
    {
        let mut s = copy_string(&w[i].0);
        s.append(" = ");
        s.append(w[i].1.as_str());
        let ghost prev = acc@;
        acc.push(s);
        proof {
            assert(views(acc@) == views(prev).push(w@[i as int].0@ + " = "@ + w@[i as int].1@));
            assert(with_pairs(w@).take(i + 1) == with_pairs(w@).take(i as int).push(
                w@[i as int].0@ + " = "@ + w@[i as int].1@,
            ));
        }
        i = i + 1;
    }
    proof {
        assert(with_pairs(w@).take(w.len() as int) == with_pairs(w@));
    }
    let j = join_strings(&acc, ", ");
    let mut r = owned("WITH (");
    r.append(j.as_str());
    r.append(")");
    r
}

fn index_statement_exec(k: &String, ix: &Index) -> (r: String)
    ensures
        r@ == index_statement(k@, *ix),
{
    let mut rest: Vec<String> = Vec::new();
    if let Some(t) = &ix.typ {
        let mut s = owned("USING ");
        let u = to_uppercase(t.as_str());
        s.append(u.as_str());
        rest.push(s);
        assert(views(rest@) == using_clause(ix.typ));
    } else {
        assert(views(rest@) == using_clause(ix.typ));
    }
    let ghost r0 = views(rest@);
    let cols = join_strings(&ix.column, ", ");
    let mut s = owned("(");
    s.append(cols.as_str());
    s.append(")");
    rest.push(s);
    let ghost r1 = views(rest@);
    assert(r1 == r0.push("("@ + join(views(ix.column@), ", "@) + ")"@));
    if let Some(inc) = &ix.covering {
        let j = join_strings(inc, ", ");
        let mut s = owned("INCLUDE (");
        s.append(j.as_str());
        s.append(")");
        rest.push(s);
        assert(views(rest@) == r1 + covering_clause(ix.covering));
    } else {
        assert(views(rest@) == r1 + covering_clause(ix.covering));
    }
    let ghost r2 = views(rest@);
    if let Some(w) = &ix.with {
        rest.push(with_statement(w));
        assert(views(rest@) == r2 + with_clause(ix.with));
    } else {
        assert(views(rest@) == r2 + with_clause(ix.with));
    }
    let ghost r3 = views(rest@);
    if let Some(w) = &ix.where_ {
        let mut s = owned("WHERE ");
        s.append(w.as_str());
        rest.push(s);
        assert(views(rest@) == r3 + where_clause(ix.where_));
    } else {
        assert(views(rest@) == r3 + where_clause(ix.where_));
    }
    assert(views(rest@) =~= index_clauses(*ix));
    let under = join_strings(&ix.column, "_");
    let mut name = owned("idx_");
    name.append(k.as_str());
    name.append("_");
    name.append(under.as_str());
    let tail = join_strings(&rest, " ");
    let mut r = owned("CREATE INDEX ");
    r.append(name.as_str());
    r.append(" on ");
    r.append(k.as_str());
    r.append(" ");
    r.append(tail.as_str());
    r.append(";");
    r
}

proof fn lemma_enum_statements_step(cs: Seq<ColsView>, i: int)
    requires
        0 <= i < cs.len(),
    ensures
        enum_statements(cs.take(i + 1)) == enum_statements(cs.take(i)) + enum_statement(cs[i]),
{
    assert(cs.take(i + 1).drop_last() == cs.take(i));
}

/// The statements for every table of `schema`: for each table in ascending
/// name order, the
/// `CREATE TYPE` statements of its enumerated columns, its `CREATE TABLE`
/// statement, and a `CREATE INDEX` statement per index.
pub fn gen_table(schema: &Vec<(String, Table)>) -> (r: Vec<String>)
    requires
        ascending_description(schema@),
        schema_resolves(schema@),
    ensures
        views(r@) == schema_statements(schema@, schema@),
{
    let mut r: Vec<String> = Vec::new();
    let mut i: usize = 0;
    while i < schema.len()
        invariant
            i <= schema.len(),
            schema_resolves(schema@),
            views(r@) == schema_statements(schema@.take(i as int), schema@),
        decreases schema.len() - i,
    {
        let k = &schema[i].0;
        let v = &schema[i].1;
        let ghost cspec = table_columns(k@, v.column@, schema@);
        let ghost r_start = views(r@);
        let mut cs: Vec<String> = Vec::new();
        let mut j: usize = 0;
        while j < v.column.len()
            invariant
                i < schema.len(),
                k == &schema@[i as int].0,
                v == &schema@[i as int].1,
                j <= v.column.len(),
                schema_resolves(schema@),
                cspec == table_columns(k@, v.column@, schema@),
                views(r@) == r_start + enum_statements(cspec.take(j as int)),
                views(cs@) == cspec.take(j as int).map_values(|c: ColsView| cols_line(c)),
            decreases v.column.len() - j,
        {
            let l = &v.column[j].0;
            let w = &v.column[j].1;
            proof {
                assert(field_resolves(schema@[i as int].1.column@[j as int].1, schema@));
            }
            let x = gen_columns(k, l, w, schema);
            assert(x@ == cspec[j as int]);
            proof {
                lemma_enum_statements_step(cspec, j as int);
            }
            let ghost rb = views(r@);
            if let Some(en) = &x.enu {
                let st = enum_type_statement(&x.typ, en);
                r.push(st);
                assert(views(r@) == rb.push(st@));
                assert(views(r@) =~= r_start + enum_statements(cspec.take(j + 1)));
            } else {
                assert(views(r@) =~= r_start + enum_statements(cspec.take(j + 1)));
            }
            let line = x.to_string();
            let ghost cb = views(cs@);
            cs.push(line);
            proof {
                assert(views(cs@) == cb.push(cols_line(cspec[j as int])));
                assert(cspec.take(j + 1).map_values(|c: ColsView| cols_line(c)) =~= cspec.take(
                    j as int,
                ).map_values(|c: ColsView| cols_line(c)).push(cols_line(cspec[j as int])));
            }
            j = j + 1;
        }
        proof {
            assert(cspec.take(v.column.len() as int) == cspec);
        }
        let ghost cb = views(cs@);
        if let Some(p) = &v.primary {
            let pj = join_strings(p, ", ");
            let mut s = owned("    PRIMARY KEY (");
            s.append(pj.as_str());
            s.append(")");
            cs.push(s);
            assert(views(cs@) == cb + primary_line(v.primary));
        } else {
            assert(views(cs@) == cb + primary_line(v.primary));
        }
        assert(views(cs@) == table_body(cspec, v.primary));
        let ct = create_table_statement(k, &cs);
        let ghost rb = views(r@);
        r.push(ct);
        assert(views(r@) == rb.push(create_table(k@, cspec, v.primary)));
        let ghost rc = views(r@);
        if let Some(ixs) = &v.index {
            let mut m: usize = 0;
            while m < ixs.len()
                invariant
                    m <= ixs.len(),
                    views(r@) == rc + ixs@.take(m as int).map_values(|ix: Index| index_statement(k@, ix)),
                decreases ixs.len() - m,
            {
                let st = index_statement_exec(k, &ixs[m]);
                let ghost before = views(r@);
                r.push(st);
                proof {
                    assert(views(r@) == before.push(index_statement(k@, ixs@[m as int])));
                    assert(ixs@.take(m + 1).map_values(|ix: Index| index_statement(k@, ix)) =~= ixs@.take(
                        m as int,
                    ).map_values(|ix: Index| index_statement(k@, ix)).push(index_statement(k@, ixs@[m as int])));
                }
                m = m + 1;
            }
            proof {
                assert(ixs@.take(ixs.len() as int) == ixs@);
            }
        } else {
            assert(views(r@) == rc + index_statements(k@, v.index));
        }
        proof {
            assert(views(r@) =~= r_start + table_statements(k@, *v, schema@));
            assert(schema@.take(i + 1).drop_last() == schema@.take(i as int));
            assert(schema@.take(i + 1).last() == schema@[i as int]);
        }
        i = i + 1;
    }
    proof {
        assert(schema@.take(schema.len() as int) == schema@);
    }
    r
}

/// The primary key line names every primary key column, in order,
/// separated by `, `; without a primary key there is no such line.
pub proof fn lemma_primary_key_line(p: Vec<String>)
    ensures
        primary_line(Some(p)) == seq!["    PRIMARY KEY ("@ + join(views(p@), ", "@) + ")"@],
        forall|i: int| 0 <= i < p@.len() ==> occurs_in(primary_line(Some(p))[0], #[trigger] p@[i]@),
        primary_line(None) == Seq::<Seq<char>>::empty(),
{
    assert forall|i: int| 0 <= i < p@.len() implies occurs_in(primary_line(Some(p))[0], #[trigger] p@[i]@) by {
        lemma_join_occurs(views(p@), ", "@, i);
        lemma_occurs_extend("    PRIMARY KEY ("@, join(views(p@), ", "@), ")"@, p@[i]@);
    }
}

/// A `CREATE TABLE` statement starts with the table's name, holds the line
/// `name TYPE` of every column, and, where the table has a primary key, the
/// line naming all its columns in order.
pub proof fn lemma_create_table_lines(k: Seq<char>, cs: Seq<ColsView>, primary: Option<Vec<String>>)
    ensures
        create_table(k, cs, primary).subrange(0, (16 + k.len()) as int) == "CREATE TABLE "@ + k + " (\n"@,
        forall|i: int| 0 <= i < cs.len() ==> occurs_in(create_table(k, cs, primary), "    "@ + (#[trigger] cs[i]).name + " "@ + cs[i].typ),
        primary matches Some(p) ==> occurs_in(create_table(k, cs, primary), "    PRIMARY KEY ("@ + join(views(p@), ", "@) + ")"@),
{
    let body = table_body(cs, primary);
    let lines = cs.map_values(|c: ColsView| cols_line(c));
    let pre = "CREATE TABLE "@ + k + " (\n"@;
    reveal_strlit("CREATE TABLE ");
    reveal_strlit(" (\n");
    assert(create_table(k, cs, primary) == pre + join(body, ",\n"@) + "\n);"@);
    assert(pre.len() == 16 + k.len());
    assert((pre + join(body, ",\n"@) + "\n);"@).subrange(0, pre.len() as int) =~= pre);
    assert forall|i: int| 0 <= i < cs.len() implies occurs_in(create_table(k, cs, primary), "    "@ + (#[trigger] cs[i]).name + " "@ + cs[i].typ) by {
        assert(body[i] == lines[i]);
        lemma_join_occurs(body, ",\n"@, i);
        lemma_occurs_extend(pre, join(body, ",\n"@), "\n);"@, body[i]);
    }
    if let Some(p) = primary {
        let n = lines.len() as int;
        assert(body[n] == "    PRIMARY KEY ("@ + join(views(p@), ", "@) + ")"@);
        lemma_join_occurs(body, ",\n"@, n);
        lemma_occurs_extend(pre, join(body, ",\n"@), "\n);"@, body[n]);
    }
}

/// A column that references another takes the referenced column's type:
/// `serial` becomes `INTEGER`, `bigserial` `BIGINTEGER`, and any other
/// literal type is the referenced column's own type.
pub proof fn lemma_reference_type(table: Seq<char>, name: Seq<char>, field: Field, schema: Seq<(String, Table)>)
    requires
        field.typ is references,
        referenced_field(field.typ, schema) matches Some(f) && f.typ is literal,
    ensures
        ({
            let tc = field.typ->references_0;
            let f = referenced_field(field.typ, schema)->0;
            let x = f.typ->literal_0@;
            &&& x == "serial"@ ==> column_type(table, name, field, schema) == uppercase_of("integer"@)
            &&& x == "bigserial"@ ==> column_type(table, name, field, schema) == uppercase_of("biginteger"@)
            &&& x != "serial"@ && x != "bigserial"@ ==> column_type(table, name, field, schema) == uppercase_of(x)
            &&& x != "serial"@ && x != "bigserial"@ ==> column_type(table, name, field, schema) == column_type(tc.0@, tc.1@, f, schema)
        }),
{
    let tc = field.typ->references_0;
    let f = referenced_field(field.typ, schema)->0;
    let x = f.typ->literal_0@;
    assert(f.typ == Typ::literal(f.typ->literal_0));
    reveal_strlit("serial");
    reveal_strlit("bigserial");
    assert("serial"@ != "bigserial"@) by {
        assert("serial"@.len() != "bigserial"@.len());
    }
    assert(column_type(table, name, field, schema) == uppercase_of(reference_base(x)));
    assert(column_type(tc.0@, tc.1@, f, schema) == uppercase_of(x));
    assert(x == "serial"@ ==> column_type(table, name, field, schema) == uppercase_of("integer"@));
    assert(x == "bigserial"@ ==> column_type(table, name, field, schema) == uppercase_of("biginteger"@));
    assert(x != "serial"@ && x != "bigserial"@ ==> column_type(table, name, field, schema) == uppercase_of(x));
}

/// The `WITH` clause of an index lists every storage parameter, in order, as
/// `key = value`.
pub proof fn lemma_with_clause(w: Vec<(String, String)>)
    ensures
        with_pairs(w@).len() == w@.len(),
        forall|i: int| 0 <= i < w@.len() ==> #[trigger] with_pairs(w@)[i] == w@[i].0@ + " = "@ + w@[i].1@,
        with_clause(Some(w)).len() == 1,
        forall|i: int| 0 <= i < w@.len() ==> occurs_in(with_clause(Some(w))[0], #[trigger] w@[i].0@ + " = "@ + w@[i].1@),
{
    assert forall|i: int| 0 <= i < w@.len() implies occurs_in(with_clause(Some(w))[0], #[trigger] w@[i].0@ + " = "@ + w@[i].1@) by {
        lemma_join_occurs(with_pairs(w@), ", "@, i);
        lemma_occurs_extend("WITH ("@, join(with_pairs(w@), ", "@), ")"@, with_pairs(w@)[i]);
    }
}

/// An index statement starts with `CREATE INDEX`, the index's name and its
/// table; it holds the indexed columns in order, and every clause the index
/// asks for: the method, the covered columns, each storage parameter and the
/// condition.
#[verifier::rlimit(80)]
pub proof fn lemma_index_statement(k: Seq<char>, ix: Index)
    ensures
        ({
            let st = index_statement(k, ix);
            let head = "CREATE INDEX idx_"@ + k + "_"@ + join(views(ix.column@), "_"@) + " on "@ + k + " "@;
            &&& st.len() >= head.len() && st.subrange(0, head.len() as int) == head
            &&& occurs_in(st, "("@ + join(views(ix.column@), ", "@) + ")"@)
            &&& ix.typ matches Some(t) ==> occurs_in(st, "USING "@ + uppercase_of(t@))
            &&& ix.covering matches Some(c) ==> occurs_in(st, "INCLUDE ("@ + join(views(c@), ", "@) + ")"@)
            &&& ix.with matches Some(w) ==> forall|i: int| 0 <= i < w@.len() ==> occurs_in(st, #[trigger] w@[i].0@ + " = "@ + w@[i].1@)
            &&& ix.where_ matches Some(w) ==> occurs_in(st, "WHERE "@ + w@)
        }),
{
    let st = index_statement(k, ix);
    let cl = index_clauses(ix);
    let head = "CREATE INDEX idx_"@ + k + "_"@ + join(views(ix.column@), "_"@) + " on "@ + k + " "@;
    reveal_strlit("CREATE INDEX ");
    reveal_strlit("idx_");
    reveal_strlit("CREATE INDEX idx_");
    assert("CREATE INDEX "@ + "idx_"@ =~= "CREATE INDEX idx_"@);
    assert(st =~= head + join(cl, " "@) + ";"@);
    assert((head + join(cl, " "@) + ";"@).subrange(0, head.len() as int) =~= head);
    let u = using_clause(ix.typ);
    let n0 = u.len() as int;
    assert(cl[n0] == "("@ + join(views(ix.column@), ", "@) + ")"@);
    lemma_join_occurs(cl, " "@, n0);
    lemma_occurs_extend(head, join(cl, " "@), ";"@, cl[n0]);
    if let Some(t) = ix.typ {
        assert(cl[0] == "USING "@ + uppercase_of(t@));
        lemma_join_occurs(cl, " "@, 0);
        lemma_occurs_extend(head, join(cl, " "@), ";"@, cl[0]);
    }
    let n1 = n0 + 1;
    if let Some(c) = ix.covering {
        assert(cl[n1] == "INCLUDE ("@ + join(views(c@), ", "@) + ")"@);
        lemma_join_occurs(cl, " "@, n1);
        lemma_occurs_extend(head, join(cl, " "@), ";"@, cl[n1]);
    }
    let n2 = n1 + covering_clause(ix.covering).len();
    if let Some(w) = ix.with {
        let wc = "WITH ("@ + join(with_pairs(w@), ", "@) + ")"@;
        assert(cl[n2] == wc);
        lemma_join_occurs(cl, " "@, n2);
        lemma_with_clause(w);
        assert forall|i: int| 0 <= i < w@.len() implies occurs_in(st, #[trigger] w@[i].0@ + " = "@ + w@[i].1@) by {
            let pair = w@[i].0@ + " = "@ + w@[i].1@;
            let j = choose|j: int| 0 <= j && j + pair.len() <= wc.len() && #[trigger] wc.subrange(j, j + pair.len()) == pair;
            let q = choose|q: int| 0 <= q && q + wc.len() <= join(cl, " "@).len() && #[trigger] join(cl, " "@).subrange(q, q + wc.len()) == wc;
            let jn = join(cl, " "@);
            assert(jn.subrange(q + j, q + j + pair.len()) =~= wc.subrange(j, j + pair.len()));
            assert(occurs_in(jn, pair));
            lemma_occurs_extend(head, jn, ";"@, pair);
        }
    }
    let n3 = n2 + with_clause(ix.with).len();
    if let Some(w) = ix.where_ {
        assert(cl[n3] == "WHERE "@ + w@);
        lemma_join_occurs(cl, " "@, n3);
        lemma_occurs_extend(head, join(cl, " "@), ";"@, cl[n3]);
    }
}

/// How many statements a list of tables yields: per table, one `CREATE
/// TYPE` per enumerated column, one `CREATE TABLE`, one `CREATE INDEX` per index.
pub open spec fn statement_count(tables: Seq<(String, Table)>) -> int
    decreases tables.len(),
{
    if tables.len() == 0 {
        0
    } else {
        statement_count(tables.drop_last()) + tables.last().1.column@.filter(
            |e: (String, Field)| e.1.typ is variant,
        ).len() + 1 + match tables.last().1.index {
            Some(v) => v@.len() as int,
            None => 0,
        }
    }
}

proof fn lemma_enum_count(k: Seq<char>, cols: Seq<(String, Field)>, schema: Seq<(String, Table)>)
    ensures
        enum_statements(table_columns(k, cols, schema)).len() == cols.filter(|e: (String, Field)| e.1.typ is variant).len(),
    decreases cols.len(),
{
    reveal_with_fuel(Seq::filter, 1);
    if cols.len() > 0 {
        lemma_enum_count(k, cols.drop_last(), schema);
        assert(table_columns(k, cols, schema).drop_last() =~= table_columns(k, cols.drop_last(), schema));
    } else {
        assert(table_columns(k, cols, schema).len() == 0);
    }
}

/// `gen_table` yields exactly the statements of its tables: as many as
/// `statement_count` says, among them every table's `CREATE TABLE` statement
/// and a `CREATE INDEX` statement for each of its indexes.
pub proof fn lemma_statements_cover(tables: Seq<(String, Table)>, schema: Seq<(String, Table)>)
    ensures
        schema_statements(tables, schema).len() == statement_count(tables),
        forall|i: int| 0 <= i < tables.len() ==> schema_statements(tables, schema).contains(
            create_table(tables[i].0@, table_columns(tables[i].0@, (#[trigger] tables[i]).1.column@, schema), tables[i].1.primary),
        ),
        forall|i: int, m: int| 0 <= i < tables.len() && tables[i].1.index is Some && 0 <= m < tables[i].1.index->0@.len()
            ==> schema_statements(tables, schema).contains(index_statement(tables[i].0@, #[trigger] tables[i].1.index->0@[m])),
    decreases tables.len(),
{
    if tables.len() > 0 {
        let d = tables.drop_last();
        let last = tables.last();
        let k = last.0@;
        let cs = table_columns(k, last.1.column@, schema);
        let prev = schema_statements(d, schema);
        let ts = table_statements(k, last.1, schema);
        let all = prev + ts;
        lemma_statements_cover(d, schema);
        lemma_enum_count(k, last.1.column@, schema);
        let e = enum_statements(cs).len() as int;
        assert(ts[e] == create_table(k, cs, last.1.primary));
        assert(all[prev.len() + e] == ts[e]);
        assert forall|i: int| 0 <= i < tables.len() implies all.contains(
            create_table(tables[i].0@, table_columns(tables[i].0@, (#[trigger] tables[i]).1.column@, schema), tables[i].1.primary),
        ) by {
            if i < d.len() {
                assert(d[i] == tables[i]);
                let x = create_table(tables[i].0@, table_columns(tables[i].0@, tables[i].1.column@, schema), tables[i].1.primary);
                let j = choose|j: int| 0 <= j < prev.len() && prev[j] == x;
                assert(all[j] == x);
            } else {
                assert(all[prev.len() + e] == create_table(k, cs, last.1.primary));
            }
        }
        assert forall|i: int, m: int| 0 <= i < tables.len() && tables[i].1.index is Some && 0 <= m < tables[i].1.index->0@.len()
            implies all.contains(index_statement(tables[i].0@, #[trigger] tables[i].1.index->0@[m])) by {
            let ixs = tables[i].1.index->0;
            if i < d.len() {
                assert(d[i] == tables[i]);
                let x = index_statement(tables[i].0@, ixs@[m]);
                let j = choose|j: int| 0 <= j < prev.len() && prev[j] == x;
                assert(all[j] == x);
            } else {
                assert(ts[e + 1 + m] == index_statement(k, ixs@[m]));
                assert(all[prev.len() + e + 1 + m] == ts[e + 1 + m]);
            }
        }
    }
}

/// The constraints of a column: `NOT NULL` first where the column is not
/// nullable, then its default (quoted and cast for JSONB), then `UNIQ` where
/// it is unique, and nothing else.
pub proof fn lemma_column_options(typ: Seq<char>, field: Field)
    ensures
        ({
            let x = column_options(typ, field);
            let n: int = (if field.notnull { 1int } else { 0int }) + (if field.default is Some { 1int } else { 0int })
                + (if field.uniq { 1int } else { 0int });
            &&& x.len() == n
            &&& field.notnull ==> x[0] == "NOT NULL"@
            &&& field.uniq ==> x[n - 1] == "UNIQ"@
            &&& field.default matches Some(d) ==> x.contains("DEFAULT "@ + (if typ == "JSONB"@ { "'"@ + d@ + "'::JSONB"@ } else { d@ }))
            &&& !field.notnull ==> !x.contains("NOT NULL"@)
            &&& !field.uniq ==> !x.contains("UNIQ"@)
        }),
{
    let x = column_options(typ, field);
    reveal_strlit("NOT NULL");
    reveal_strlit("UNIQ");
    reveal_strlit("DEFAULT ");
    assert("NOT NULL"@ != "UNIQ"@) by { assert("NOT NULL"@.len() != "UNIQ"@.len()); }
    if let Some(d) = field.default {
        let dv = "DEFAULT "@ + default_value(typ, d@);
        assert(dv[0] == 'D');
        assert(dv != "NOT NULL"@) by { assert(dv[0] != "NOT NULL"@[0]); }
        assert(dv != "UNIQ"@) by { assert(dv[0] != "UNIQ"@[0]); }
        let k: int = if field.notnull { 1int } else { 0int };
        assert(x[k] == dv);
    }
}

/// The `CREATE TYPE` statement of an enumerated column names the type
/// `table_column` and lists every label, quoted, in order.
pub proof fn lemma_enum_statement(table: Seq<char>, name: Seq<char>, field: Field, schema: Seq<(String, Table)>)
    requires
        field.typ is variant,
    ensures
        ({
            let labels = field.typ->variant_0;
            let st = enum_statement(spec_gen_columns(table, name, field, schema));
            &&& st.len() == 1
            &&& st[0] == "CREATE TYPE "@ + table + "_"@ + name + " AS ENUM ("@ + join(quoted(views(labels@)), ", "@) + ");"@
            &&& forall|i: int| 0 <= i < labels@.len() ==> occurs_in(st[0], "'"@ + (#[trigger] labels@[i])@ + "'"@)
        }),
{
    let labels = field.typ->variant_0;
    let st = enum_statement(spec_gen_columns(table, name, field, schema));
    let pre = "CREATE TYPE "@ + table + "_"@ + name + " AS ENUM ("@;
    let c = spec_gen_columns(table, name, field, schema);
    assert(c.enu == Some(views(labels@)));
    assert(c.typ == table + "_"@ + name);
    assert(st[0] =~= pre + join(quoted(views(labels@)), ", "@) + ");"@);
    assert forall|i: int| 0 <= i < labels@.len() implies occurs_in(st[0], "'"@ + (#[trigger] labels@[i])@ + "'"@) by {
        assert(quoted(views(labels@))[i] == "'"@ + labels@[i]@ + "'"@);
        lemma_join_occurs(quoted(views(labels@)), ", "@, i);
        lemma_occurs_extend(pre, join(quoted(views(labels@)), ", "@), ");"@, quoted(views(labels@))[i]);
    }
}

/// A rendered column keeps its name; a literal type is written uppercase; an
/// enumerated column gets the type `table_column`; a reference carries the
/// clause `REFERENCES table (column)`, and only a reference does; only an
/// enumerated column carries labels, which are its own, in order.
pub proof fn lemma_column_rendering(table: Seq<char>, name: Seq<char>, field: Field, schema: Seq<(String, Table)>)
    ensures
        ({
            let c = spec_gen_columns(table, name, field, schema);
            &&& c.name == name
            &&& field.typ matches Typ::literal(l) ==> c.typ == uppercase_of(l@)
            &&& field.typ matches Typ::variant(v) ==> c.typ == table + "_"@ + name && c.enu == Some(views(v@))
            &&& field.typ matches Typ::references(tc) ==> c.refs == Some("REFERENCES "@ + tc.0@ + " ("@ + tc.1@ + ")"@)
            &&& !(field.typ is references) ==> c.refs is None
            &&& !(field.typ is variant) ==> c.enu is None
            &&& c.x == column_options(c.typ, field)
        }),
{
}

} // verus!
