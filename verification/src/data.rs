//! Planning an upsert request: which table it targets, and for each record
//! which fields go to columns of their own and which to the variant column.

use vstd::prelude::*;
use vstd::string::StringExecFns;
use crate::assoc::{lookup, assoc_get};
use crate::error::HttpError;
use crate::schema::{Column, Table, Store, Val, Payload, PayloadView, cached, val_view, extra_view};
use crate::text::{views, decimal, decimal_string, owned, copy_string, clone_strings};

verus! {

/// An element of a request body: a record, or any other value.
pub enum Item<V> {
    Object(Vec<(String, V)>),
    Other,
}

/// A request body: one record, a list of elements, or any other value.
pub enum Body<V> {
    Object(Vec<(String, V)>),
    Array(Vec<Item<V>>),
    Other,
}

/// The elements that a body holds: a single record stands for itself.
pub open spec fn body_items<V>(b: Body<V>) -> Seq<Item<V>> {
    match b {
        Body::Object(o) => seq![Item::Object(o)],
        Body::Array(v) => v@,
        Body::Other => Seq::<Item<V>>::empty(),
    }
}

/// The records among the elements, in order.
pub open spec fn records<V>(items: Seq<Item<V>>) -> Seq<Seq<(String, V)>>
    decreases items.len(),
{
    if items.len() == 0 {
        Seq::<Seq<(String, V)>>::empty()
    } else {
        records(items.drop_last()) + match items.last() {
            Item::Object(o) => seq![o@],
            Item::Other => Seq::<Seq<(String, V)>>::empty(),
        }
    }
}

/// The fields of a record that the table has a column for, by name.
pub open spec fn row_columns<V>(cols: Seq<(String, Column)>, e: Seq<(String, V)>) -> Seq<Seq<char>>
    decreases e.len(),
{
    if e.len() == 0 {
        Seq::<Seq<char>>::empty()
    } else if lookup(cols, e.last().0@) is Some {
        row_columns(cols, e.drop_last()).push(e.last().0@)
    } else {
        row_columns(cols, e.drop_last())
    }
}

/// The values of those fields, each with the type of its column.
pub open spec fn row_values<V>(cols: Seq<(String, Column)>, e: Seq<(String, V)>) -> Seq<(V, Seq<char>)>
    decreases e.len(),
{
    if e.len() == 0 {
        Seq::<(V, Seq<char>)>::empty()
    } else if lookup(cols, e.last().0@) is Some {
        row_values(cols, e.drop_last()).push((e.last().1, lookup(cols, e.last().0@)->0.data_type@))
    } else {
        row_values(cols, e.drop_last())
    }
}

/// The fields that the table has no column for.
pub open spec fn row_extra<V>(cols: Seq<(String, Column)>, e: Seq<(String, V)>) -> Seq<(Seq<char>, V)>
    decreases e.len(),
{
    if e.len() == 0 {
        Seq::<(Seq<char>, V)>::empty()
    } else if lookup(cols, e.last().0@) is Some {
        row_extra(cols, e.drop_last())
    } else {
        row_extra(cols, e.drop_last()).push((e.last().0@, e.last().1))
    }
}

/// The placeholders `$1` to `$n`.
pub open spec fn placeholders(n: nat) -> Seq<Seq<char>> {
    Seq::new(n, |i: int| "$"@ + decimal((i + 1) as nat))
}

/// The row that a record becomes: its fields with a column, then the variant
/// column, which takes the other fields.
pub open spec fn row_payload<V>(schema: Seq<char>, table: Seq<char>, t: Table, var: Seq<char>, e: Seq<(String, V)>) -> PayloadView<V> {
    let cols = row_columns(t.column@, e);
    PayloadView {
        schema: schema,
        table: table,
        columns: cols.push(var),
        fields: placeholders(cols.len() + 1),
        values: row_values(t.column@, e),
        pk: views(t.primary_key@),
        variant: row_extra(t.column@, e),
    }
}

/// The rows that the records of `b` become.
pub open spec fn body_payloads<V>(schema: Seq<char>, table: Seq<char>, t: Table, var: Seq<char>, b: Body<V>) -> Seq<PayloadView<V>> {
    records(body_items(b)).map_values(|e: Seq<(String, V)>| row_payload(schema, table, t, var, e))
}

/// A record has fewer fields than the largest `usize`, so that its placeholders can be numbered.
pub open spec fn records_fit<V>(b: Body<V>) -> bool {
    forall|i: int| 0 <= i < body_items(b).len() ==> (#[trigger] body_items(b)[i] matches Item::Object(o) ==> o.len() < usize::MAX)
}

/// Whether every record of `b` has fewer fields than the largest `usize`,
/// as `upsert_plan` needs.
pub fn body_fits<V>(b: &Body<V>) -> (r: bool)
    ensures
        r == records_fit(*b),
{
    match b {
        Body::Object(o) => {
            proof {
                assert(body_items(*b)[0] == Item::Object(*o));
            }
            o.len() < usize::MAX
        },
        Body::Array(items) => {
            let mut i: usize = 0;
            while i < items.len()
                invariant
                    i <= items.len(),
                    *b == Body::Array(*items),
                    forall|k: int| 0 <= k < i ==> (#[trigger] body_items(*b)[k] matches Item::Object(o) ==> o.len() < usize::MAX),
                decreases items.len() - i,
            {
                if let Item::Object(o) = &items[i] {
                    if o.len() == usize::MAX {
                        proof {
                            assert(body_items(*b)[i as int] == Item::Object(*o));
                        }
                        return false;
                    }
                }
                i = i + 1;
            }
            true
        },
        Body::Other => true,
    }
}

fn placeholder(n: usize) -> (r: String)
    ensures
        r@ == "$"@ + decimal(n as nat),
{
    let mut s = owned("$");
    let d = decimal_string(n as u64);
    s.append(d.as_str());
    s
}

/// The row that the record `obj` becomes, in table `tbl`.
pub fn plan_row<'a, V>(schema: &String, table: &String, tbl: &Table, var: &String, obj: &'a Vec<(String, V)>) -> (r: Payload<'a, V>)
    requires
        obj.len() < usize::MAX,
    ensures
        r@ == row_payload(schema@, table@, *tbl, var@, obj@),
{
    let mut ix: usize = 0;
    let mut columns: Vec<String> = Vec::new();
    let mut fields: Vec<String> = Vec::new();
    let mut values: Vec<Val<'a, V>> = Vec::new();
    let mut ext: Vec<(String, &'a V)> = Vec::new();
    let mut i: usize = 0;
    while i < obj.len()
        invariant
            i <= obj.len(),
            obj.len() < usize::MAX,
            ix == columns.len(),
            ix <= i,
            views(columns@) == row_columns(tbl.column@, obj@.take(i as int)),
            views(fields@) == placeholders(ix as nat),
            values@.map_values(|v: Val<'a, V>| val_view(v)) == row_values(tbl.column@, obj@.take(i as int)),
            ext@.map_values(|e: (String, &'a V)| extra_view(e)) == row_extra(tbl.column@, obj@.take(i as int)),
        decreases obj.len() - i,
    {
        let k = &obj[i].0;
        let ghost pre = obj@.take(i as int);
        proof {
            assert(obj@.take(i + 1).drop_last() == pre);
            assert(obj@.take(i + 1).last() == obj@[i as int]);
        }
        match assoc_get(&tbl.column, k) {
            Some(c) => {
                ix = ix + 1;
                let ghost f0 = views(fields@);
                let p = placeholder(ix);
                let ghost pv = p@;
                fields.push(p);
                proof {
                    assert(views(fields@) == f0.push(pv));
                    assert(views(fields@) =~= placeholders(ix as nat));
                }
                let ghost c0 = views(columns@);
                columns.push(copy_string(k));
                proof {
                    assert(views(columns@) == c0.push(k@));
                }
                let ghost v0 = values@;
                values.push(Val { value: &obj[i].1, typ: copy_string(&c.data_type) });
                proof {
                    assert(values@.map_values(|v: Val<'a, V>| val_view(v)) =~= v0.map_values(
                        |v: Val<'a, V>| val_view(v),
                    ).push((obj@[i as int].1, c.data_type@)));
                }
            },
            None => {
                let ghost e0 = ext@;
                ext.push((copy_string(k), &obj[i].1));
                proof {
                    assert(ext@.map_values(|e: (String, &'a V)| extra_view(e)) =~= e0.map_values(
                        |e: (String, &'a V)| extra_view(e),
                    ).push((k@, obj@[i as int].1)));
                }
            },
        }
        i = i + 1;
    }
    proof {
        assert(obj@.take(obj.len() as int) == obj@);
    }
    ix = ix + 1;
    let ghost f0 = views(fields@);
    let p = placeholder(ix);
    let ghost pv = p@;
    fields.push(p);
    proof {
        assert(views(fields@) == f0.push(pv));
        assert(views(fields@) =~= placeholders(ix as nat));
    }
    let ghost c0 = views(columns@);
    columns.push(copy_string(var));
    proof {
        assert(views(columns@) == c0.push(var@));
        assert(c0.len() == row_columns(tbl.column@, obj@).len());
    }
    let r = Payload {
        schema: copy_string(schema),
        table: copy_string(table),
        columns,
        fields,
        values,
        pk: clone_strings(&tbl.primary_key),
        variant: ext,
    };
    proof {
        assert(r@.pk == views(tbl.primary_key@));
        assert(r@.fields == placeholders(row_columns(tbl.column@, obj@).len() + 1));
    }
    r
}

/// Plans an upsert of `data` into table `table` of schema `schema`, keeping
/// the fields without a column in the variant column `var`. The table must
/// be cached (else `not fount`) and `var` must be one of its variant columns
/// (else `<var> is not a variant`). Each record of the body becomes one row;
/// elements that are not records are passed over.
pub fn upsert_plan<'a, T, R, V>(store: &Store<T, R>, schema: &String, table: &String, var: &String, data: &'a Body<V>) -> (r: Result<Vec<Payload<'a, V>>, HttpError>)
    requires
        records_fit(*data),
    ensures
        match cached(store.tables(), schema@, table@) {
            None => r matches Err(e) && e.0@ == "not fount"@,
            Some(t) => if !t@.variant.contains(var@) {
                r matches Err(e) && e.0@ == var@ + " is not a variant"@
            } else {
                r matches Ok(ps) && ps@.map_values(|p: Payload<'a, V>| p@) == body_payloads(schema@, table@, t, var@, *data)
            },
        },
{
    let tbl = match store.get(schema, table) {
        Ok(t) => t,
        Err(e) => return Err(e),
    };
    if !tbl.has_variant(var) {
        let mut m = copy_string(var);
        m.append(" is not a variant");
        return Err(HttpError::new(m));
    }
    let mut out: Vec<Payload<'a, V>> = Vec::new();
    match data {
        Body::Object(o) => {
            proof {
                let items = body_items(*data);
                assert(items.drop_last() == Seq::<Item<V>>::empty());
                assert(records(Seq::<Item<V>>::empty()) == Seq::<Seq<(String, V)>>::empty());
                assert(records(items) == seq![o@]);
                assert(items[0] == Item::Object(*o));
            }
            out.push(plan_row(schema, table, &tbl, var, o));
            proof {
                assert(out@.map_values(|p: Payload<'a, V>| p@) =~= body_payloads(schema@, table@, tbl, var@, *data));
            }
        },
        Body::Array(items) => {
            let ghost f = |e: Seq<(String, V)>| row_payload(schema@, table@, tbl, var@, e);
            let mut i: usize = 0;
            while i < items.len()
                invariant
                    i <= items.len(),
                    *data == Body::Array(*items),
                    records_fit(*data),
                    f == |e: Seq<(String, V)>| row_payload(schema@, table@, tbl, var@, e),
                    out@.map_values(|p: Payload<'a, V>| p@) == records(items@.take(i as int)).map_values(f),
                decreases items.len() - i,
            {
                proof {
                    assert(items@.take(i + 1).drop_last() == items@.take(i as int));
                    assert(items@.take(i + 1).last() == items@[i as int]);
                }
                match &items[i] {
                    Item::Object(o) => {
                        proof {
                            assert(records(items@.take(i + 1)) == records(items@.take(i as int)).push(o@));
                            assert(body_items(*data)[i as int] == Item::Object(*o));
                        }
                        let ghost o0 = out@;
                        out.push(plan_row(schema, table, &tbl, var, o));
                        proof {
                            assert(out@.map_values(|p: Payload<'a, V>| p@) =~= o0.map_values(
                                |p: Payload<'a, V>| p@,
                            ).push(f(o@)));
                            assert(records(items@.take(i + 1)).map_values(f) =~= records(items@.take(i as int)).map_values(f).push(f(o@)));
                        }
                    },
                    Item::Other => {
                        proof {
                            assert(records(items@.take(i + 1)) =~= records(items@.take(i as int)));
                        }
                    },
                }
                i = i + 1;
            }
            proof {
                assert(items@.take(items.len() as int) == items@);
                assert(out@.map_values(|p: Payload<'a, V>| p@) =~= body_payloads(schema@, table@, tbl, var@, *data));
            }
        },
        Body::Other => {
            proof {
                assert(out@.map_values(|p: Payload<'a, V>| p@) =~= body_payloads(schema@, table@, tbl, var@, *data));
            }
        },
    }
    Ok(out)
}

/// Each field of a record goes either to a column or to the variant column:
/// as many values as columns, and together as many as the record has fields.
pub proof fn lemma_row_partition<V>(cols: Seq<(String, Column)>, e: Seq<(String, V)>)
    ensures
        row_values(cols, e).len() == row_columns(cols, e).len(),
        row_columns(cols, e).len() + row_extra(cols, e).len() == e.len(),
        forall|i: int| 0 <= i < e.len() ==> (if lookup(cols, e[i].0@) is Some {
            row_columns(cols, e).contains(e[i].0@)
        } else {
            row_extra(cols, e).contains((e[i].0@, e[i].1))
        }),
    decreases e.len(),
{
    if e.len() > 0 {
        let d = e.drop_last();
        lemma_row_partition(cols, d);
        assert forall|i: int| 0 <= i < e.len() implies (if lookup(cols, e[i].0@) is Some {
            row_columns(cols, e).contains(e[i].0@)
        } else {
            row_extra(cols, e).contains((e[i].0@, e[i].1))
        }) by {
            if i < e.len() - 1 {
                assert(e[i] == d[i]);
                if lookup(cols, e[i].0@) is Some {
                    let k = choose|k: int| 0 <= k < row_columns(cols, d).len() && row_columns(cols, d)[k] == e[i].0@;
                    if lookup(cols, e.last().0@) is Some {
                        assert(row_columns(cols, e)[k] == e[i].0@);
                    }
                } else {
                    let k = choose|k: int| 0 <= k < row_extra(cols, d).len() && row_extra(cols, d)[k] == (e[i].0@, e[i].1);
                    if lookup(cols, e.last().0@) is None {
                        assert(row_extra(cols, e)[k] == (e[i].0@, e[i].1));
                    }
                }
            } else {
                if lookup(cols, e[i].0@) is Some {
                    assert(row_columns(cols, e).last() == e[i].0@);
                } else {
                    assert(row_extra(cols, e).last() == (e[i].0@, e[i].1));
                }
            }
        }
    }
}

/// A planned row has one placeholder per column, `$1`, `$2`, .. in order,
/// and one value per column but the last, which is the variant column.
pub proof fn lemma_row_placeholders<V>(schema: Seq<char>, table: Seq<char>, t: Table, var: Seq<char>, e: Seq<(String, V)>)
    ensures
        ({
            let p = row_payload(schema, table, t, var, e);
            &&& p.fields.len() == p.columns.len()
            &&& p.values.len() + 1 == p.columns.len()
            &&& p.columns.last() == var
            &&& forall|i: int| 0 <= i < p.fields.len() ==> #[trigger] p.fields[i] == "$"@ + decimal((i + 1) as nat)
        }),
{
    lemma_row_partition(t.column@, e);
}

/// The type of the column that a field named `k` goes to.
pub open spec fn column_type_of(cols: Seq<(String, Column)>, k: Seq<char>) -> Seq<char> {
    lookup(cols, k)->0.data_type@
}

/// Some field of the record has a column and is the column `c` with the value `v`.
pub open spec fn from_column_field<V>(cols: Seq<(String, Column)>, e: Seq<(String, V)>, c: Seq<char>, v: (V, Seq<char>)) -> bool {
    exists|k: int|
        0 <= k < e.len() && lookup(cols, e[k].0@) is Some && c == #[trigger] e[k].0@ && v == (e[k].1, column_type_of(cols, e[k].0@))
}

/// Some field of the record has no column and is the variant field `x`.
pub open spec fn from_variant_field<V>(cols: Seq<(String, Column)>, e: Seq<(String, V)>, x: (Seq<char>, V)) -> bool {
    exists|k: int| 0 <= k < e.len() && lookup(cols, e[k].0@) is None && x == (#[trigger] e[k].0@, e[k].1)
}

/// Some column of the split is `c`, with the value `v`.
pub open spec fn has_column<V>(columns: Seq<Seq<char>>, values: Seq<(V, Seq<char>)>, c: Seq<char>, v: (V, Seq<char>)) -> bool {
    exists|m: int| 0 <= m < columns.len() && #[trigger] columns[m] == c && values[m] == v
}

/// Each column of the split comes from a field of the record that has a
/// column, with that field's value and the column's type.
pub open spec fn columns_from_fields<V>(cols: Seq<(String, Column)>, e: Seq<(String, V)>, columns: Seq<Seq<char>>, values: Seq<(V, Seq<char>)>) -> bool {
    forall|m: int| #![trigger columns[m]] 0 <= m < columns.len() ==> from_column_field(cols, e, columns[m], values[m])
}

/// Each variant field of the split is a field of the record without a column.
pub open spec fn extra_from_fields<V>(cols: Seq<(String, Column)>, e: Seq<(String, V)>, extra: Seq<(Seq<char>, V)>) -> bool {
    forall|m: int| #![trigger extra[m]] 0 <= m < extra.len() ==> from_variant_field(cols, e, extra[m])
}

/// Each field of the record that has a column is among the split's columns,
/// with its value and the column's type.
pub open spec fn fields_in_columns<V>(cols: Seq<(String, Column)>, e: Seq<(String, V)>, columns: Seq<Seq<char>>, values: Seq<(V, Seq<char>)>) -> bool {
    forall|k: int| 0 <= k < e.len() && lookup(cols, (#[trigger] e[k]).0@) is Some ==> has_column(
        columns,
        values,
        e[k].0@,
        (e[k].1, column_type_of(cols, e[k].0@)),
    )
}

/// Each field of the record without a column is among the variant fields.
pub open spec fn fields_in_extra<V>(cols: Seq<(String, Column)>, e: Seq<(String, V)>, extra: Seq<(Seq<char>, V)>) -> bool {
    forall|k: int| 0 <= k < e.len() && lookup(cols, (#[trigger] e[k]).0@) is None ==> extra.contains((e[k].0@, e[k].1))
}

/// The fields of a record matched against the split into columns, values
/// and variant fields: in both directions, and column by column.
pub open spec fn split_matches<V>(
    cols: Seq<(String, Column)>,
    e: Seq<(String, V)>,
    columns: Seq<Seq<char>>,
    values: Seq<(V, Seq<char>)>,
    extra: Seq<(Seq<char>, V)>,
) -> bool {
    &&& columns.len() == values.len()
    &&& columns.len() + extra.len() == e.len()
    &&& columns_from_fields(cols, e, columns, values)
    &&& extra_from_fields(cols, e, extra)
    &&& fields_in_columns(cols, e, columns, values)
    &&& fields_in_extra(cols, e, extra)
}

proof fn lemma_split_columns_origin<V>(cols: Seq<(String, Column)>, e: Seq<(String, V)>)
    ensures
        row_columns(cols, e).len() == row_values(cols, e).len(),
        columns_from_fields(cols, e, row_columns(cols, e), row_values(cols, e)),
    decreases e.len(),
{
    if e.len() > 0 {
        let d = e.drop_last();
        let n = e.len() - 1;
        lemma_split_columns_origin(cols, d);
        let c0 = row_columns(cols, d);
        let v0 = row_values(cols, d);
        let c = row_columns(cols, e);
        let v = row_values(cols, e);
        assert forall|m: int| #![trigger c[m]] 0 <= m < c.len() implies from_column_field(cols, e, c[m], v[m]) by {
            if m < c0.len() {
                assert(from_column_field(cols, d, c0[m], v0[m]));
                let k = choose|k: int| 0 <= k < d.len() && lookup(cols, d[k].0@) is Some && c0[m] == #[trigger] d[k].0@
                    && v0[m] == (d[k].1, column_type_of(cols, d[k].0@));
                assert(d[k] == e[k]);
                assert(c[m] == e[k].0@);
            } else {
                assert(e.last() == e[n]);
                assert(c[m] == e[n].0@);
            }
        }
    }
}

proof fn lemma_split_extra_origin<V>(cols: Seq<(String, Column)>, e: Seq<(String, V)>)
    ensures
        extra_from_fields(cols, e, row_extra(cols, e)),
    decreases e.len(),
{
    if e.len() > 0 {
        let d = e.drop_last();
        let n = e.len() - 1;
        lemma_split_extra_origin(cols, d);
        let x0 = row_extra(cols, d);
        let x = row_extra(cols, e);
        assert forall|m: int| #![trigger x[m]] 0 <= m < x.len() implies from_variant_field(cols, e, x[m]) by {
            if m < x0.len() {
                assert(from_variant_field(cols, d, x0[m]));
                let k = choose|k: int| 0 <= k < d.len() && lookup(cols, d[k].0@) is None && x0[m] == (#[trigger] d[k].0@, d[k].1);
                assert(d[k] == e[k]);
                assert(x[m] == (e[k].0@, e[k].1));
            } else {
                assert(e.last() == e[n]);
                assert(x[m] == (e[n].0@, e[n].1));
            }
        }
    }
}

proof fn lemma_split_columns_cover<V>(cols: Seq<(String, Column)>, e: Seq<(String, V)>)
    ensures
        fields_in_columns(cols, e, row_columns(cols, e), row_values(cols, e)),
    decreases e.len(),
{
    if e.len() > 0 {
        let d = e.drop_last();
        let n = e.len() - 1;
        lemma_split_columns_cover(cols, d);
        lemma_split_columns_origin(cols, d);
        let c0 = row_columns(cols, d);
        let v0 = row_values(cols, d);
        let c = row_columns(cols, e);
        let v = row_values(cols, e);
        assert forall|k: int| 0 <= k < e.len() && lookup(cols, (#[trigger] e[k]).0@) is Some implies has_column(
            c,
            v,
            e[k].0@,
            (e[k].1, column_type_of(cols, e[k].0@)),
        ) by {
            if k < n {
                assert(d[k] == e[k]);
                assert(has_column(c0, v0, d[k].0@, (d[k].1, column_type_of(cols, d[k].0@))));
                let m = choose|m: int| 0 <= m < c0.len() && #[trigger] c0[m] == d[k].0@ && v0[m] == (d[k].1, column_type_of(cols, d[k].0@));
                assert(c[m] == c0[m] && v[m] == v0[m]);
            } else {
                assert(e.last() == e[n]);
                assert(c[c0.len() as int] == e[n].0@);
                assert(v[c0.len() as int] == (e[n].1, column_type_of(cols, e[n].0@)));
            }
        }
    }
}

/// The split of a record into column values and variant fields matches the
/// record field by field.
pub proof fn lemma_row_split<V>(cols: Seq<(String, Column)>, e: Seq<(String, V)>)
    ensures
        split_matches(cols, e, row_columns(cols, e), row_values(cols, e), row_extra(cols, e)),
{
    lemma_split_columns_origin(cols, e);
    lemma_split_extra_origin(cols, e);
    lemma_split_columns_cover(cols, e);
    assert(row_columns(cols, e).len() + row_extra(cols, e).len() == e.len() && fields_in_extra(cols, e, row_extra(cols, e))) by {
        lemma_row_partition(cols, e);
        assert forall|k: int| 0 <= k < e.len() && lookup(cols, (#[trigger] e[k]).0@) is None implies row_extra(cols, e).contains((e[k].0@, e[k].1)) by {
            assert(if lookup(cols, e[k].0@) is Some {
                row_columns(cols, e).contains(e[k].0@)
            } else {
                row_extra(cols, e).contains((e[k].0@, e[k].1))
            });
        }
    }
}

/// The record elements of a body: the body itself when it is one record,
/// the record elements of a list in order, none otherwise.
pub open spec fn record_elements<V>(b: Body<V>) -> Seq<Item<V>> {
    match b {
        Body::Object(o) => seq![Item::Object(o)],
        Body::Array(v) => v@.filter(|it: Item<V>| it is Object),
        Body::Other => Seq::<Item<V>>::empty(),
    }
}

proof fn lemma_records_filter<V>(items: Seq<Item<V>>)
    ensures
        records(items).len() == items.filter(|it: Item<V>| it is Object).len(),
        forall|i: int| 0 <= i < records(items).len() ==> #[trigger] records(items)[i] == items.filter(|it: Item<V>| it is Object)[i]->Object_0@,
    decreases items.len(),
{
    reveal_with_fuel(Seq::filter, 1);
    if items.len() > 0 {
        lemma_records_filter(items.drop_last());
    }
}

/// Every record element of the body becomes exactly one planned row, in
/// order, whatever fields it has; each row targets the given table, puts the
/// record's fields that have a column into those columns with their types
/// and the others into the variant column `var`, numbers its placeholders
/// `$1`, `$2`, .., and carries the table's primary key.
pub proof fn lemma_upsert_rows<V>(schema: Seq<char>, table: Seq<char>, t: Table, var: Seq<char>, b: Body<V>)
    ensures
        body_payloads(schema, table, t, var, b).len() == record_elements(b).len(),
        forall|i: int| 0 <= i < record_elements(b).len() ==> {
            let p = #[trigger] body_payloads(schema, table, t, var, b)[i];
            let e = record_elements(b)[i]->Object_0@;
            &&& p.schema == schema && p.table == table
            &&& p.pk == views(t.primary_key@)
            &&& p.columns.len() == p.fields.len()
            &&& p.columns.len() == p.values.len() + 1
            &&& p.columns.last() == var
            &&& (forall|j: int| 0 <= j < p.fields.len() ==> #[trigger] p.fields[j] == "$"@ + crate::text::decimal((j + 1) as nat))
            &&& split_matches(t.column@, e, p.columns.drop_last(), p.values, p.variant)
        },
{
    let items = body_items(b);
    lemma_records_filter(items);
    reveal_with_fuel(Seq::filter, 2);
    match b {
        Body::Object(o) => {
            assert(items.drop_last() =~= Seq::<Item<V>>::empty());
            assert(seq![Item::Object(o)].filter(|it: Item<V>| it is Object) =~= seq![Item::Object(o)]);
        },
        _ => {},
    }
    assert(records(items).len() == record_elements(b).len());
    assert forall|i: int| 0 <= i < record_elements(b).len() implies {
        let p = #[trigger] body_payloads(schema, table, t, var, b)[i];
        let e = record_elements(b)[i]->Object_0@;
        &&& p.schema == schema && p.table == table
        &&& p.pk == views(t.primary_key@)
        &&& p.columns.len() == p.fields.len()
        &&& p.columns.len() == p.values.len() + 1
        &&& p.columns.last() == var
        &&& (forall|j: int| 0 <= j < p.fields.len() ==> #[trigger] p.fields[j] == "$"@ + crate::text::decimal((j + 1) as nat))
        &&& split_matches(t.column@, e, p.columns.drop_last(), p.values, p.variant)
    } by {
        let e = record_elements(b)[i]->Object_0@;
        assert(records(items)[i] == e);
        let p = body_payloads(schema, table, t, var, b)[i];
        assert(p == row_payload(schema, table, t, var, e));
        lemma_row_placeholders(schema, table, t, var, e);
        lemma_row_split(t.column@, e);
        assert(p.columns.drop_last() == row_columns(t.column@, e));
    }
}

} // verus!
