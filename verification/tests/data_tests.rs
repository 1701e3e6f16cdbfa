use pg_variant::config::DataMap;
use pg_variant::data::{body_fits, plan_row, upsert_plan, Body, Item};
use pg_variant::postgres::{bind_kind, Bind};
use pg_variant::schema::{Column, Entity, Store, Table};

fn users() -> Table {
    Table {
        primary_key: vec!["id".to_string()],
        variant: vec!["ext".to_string()],
        column: vec![
            ("id".to_string(), Column { nullable: false, data_type: "i64".to_string() }),
            ("name".to_string(), Column { nullable: true, data_type: "str".to_string() }),
            ("ext".to_string(), Column { nullable: true, data_type: "jsonb".to_string() }),
        ],
    }
}

fn store() -> Store<(), ()> {
    let mut s = Store::new((), None, DataMap(Vec::new()), ());
    s.update(Entity { schema: "public".to_string(), table: "users".to_string(), content: users() })
        .unwrap();
    s
}

fn record(fields: &[(&str, i32)]) -> Vec<(String, i32)> {
    fields.iter().map(|(k, v)| (k.to_string(), *v)).collect()
}

#[test]
fn record_splits_into_columns_and_variant() {
    let obj = record(&[("age", 30), ("id", 7), ("name", 1), ("zone", 2)]);
    let p = plan_row(&"public".to_string(), &"users".to_string(), &users(), &"ext".to_string(), &obj);
    assert_eq!(p.columns, vec!["id", "name", "ext"]);
    assert_eq!(p.fields, vec!["$1", "$2", "$3"]);
    assert_eq!(p.values.len(), 2);
    assert_eq!(*p.values[0].value, 7);
    assert_eq!(p.values[0].typ, "i64");
    assert_eq!(*p.values[1].value, 1);
    assert_eq!(p.values[1].typ, "str");
    assert_eq!(p.variant.len(), 2);
    assert_eq!(p.variant[0].0, "age");
    assert_eq!(*p.variant[0].1, 30);
    assert_eq!(p.variant[1].0, "zone");
    assert_eq!(p.pk, vec!["id"]);
    assert_eq!(p.upsert_sql(), "insert into public.users (id, name, ext) values ($1, $2, $3)");
    assert_eq!(p.binds(), vec![Bind::I64, Bind::Str, Bind::Json]);
}

#[test]
fn empty_record_has_only_the_variant_column() {
    let obj: Vec<(String, i32)> = Vec::new();
    let p = plan_row(&"s".to_string(), &"t".to_string(), &users(), &"ext".to_string(), &obj);
    assert_eq!(p.columns, vec!["ext"]);
    assert_eq!(p.fields, vec!["$1"]);
    assert!(p.values.is_empty());
    assert!(p.variant.is_empty());
    assert_eq!(p.upsert_sql(), "insert into s.t (ext) values ($1)");
    assert_eq!(p.binds(), vec![Bind::Json]);
}

#[test]
fn upsert_of_one_object() {
    let s = store();
    let body = Body::Object(record(&[("id", 1), ("x", 2)]));
    let ps = upsert_plan(&s, &"public".to_string(), &"users".to_string(), &"ext".to_string(), &body)
        .ok()
        .unwrap();
    assert_eq!(ps.len(), 1);
    assert_eq!(ps[0].columns, vec!["id", "ext"]);
    assert_eq!(ps[0].variant[0].0, "x");
}

#[test]
fn upsert_of_an_array_skips_non_objects() {
    let s = store();
    let body = Body::Array(vec![
        Item::Object(record(&[("name", 1)])),
        Item::Other,
        Item::Object(record(&[("id", 3), ("name", 4)])),
    ]);
    let ps = upsert_plan(&s, &"public".to_string(), &"users".to_string(), &"ext".to_string(), &body)
        .ok()
        .unwrap();
    assert_eq!(ps.len(), 2);
    assert_eq!(ps[0].columns, vec!["name", "ext"]);
    assert_eq!(ps[1].columns, vec!["id", "name", "ext"]);
    assert_eq!(ps[1].fields, vec!["$1", "$2", "$3"]);
}

#[test]
fn upsert_of_a_scalar_plans_nothing() {
    let s = store();
    let body: Body<i32> = Body::Other;
    let ps = upsert_plan(&s, &"public".to_string(), &"users".to_string(), &"ext".to_string(), &body)
        .ok()
        .unwrap();
    assert!(ps.is_empty());
}

#[test]
fn upsert_into_an_unknown_table() {
    let s = store();
    let body: Body<i32> = Body::Other;
    match upsert_plan(&s, &"public".to_string(), &"orders".to_string(), &"ext".to_string(), &body) {
        Err(e) => assert_eq!(e.0, "not fount"),
        Ok(_) => panic!("expected an error"),
    }
}

#[test]
fn upsert_with_a_variant_that_is_not_one() {
    let s = store();
    let body = Body::Object(record(&[("id", 1)]));
    match upsert_plan(&s, &"public".to_string(), &"users".to_string(), &"name".to_string(), &body) {
        Err(e) => assert_eq!(e.0, "name is not a variant"),
        Ok(_) => panic!("expected an error"),
    }
}

#[test]
fn bind_kinds_by_type_name() {
    assert_eq!(bind_kind(&"i64".to_string()), Bind::I64);
    assert_eq!(bind_kind(&"f64".to_string()), Bind::F64);
    assert_eq!(bind_kind(&"str".to_string()), Bind::Str);
    assert_eq!(bind_kind(&"bool".to_string()), Bind::Bool);
    assert_eq!(bind_kind(&"date".to_string()), Bind::Date);
    assert_eq!(bind_kind(&"jsonb".to_string()), Bind::Json);
    assert_eq!(bind_kind(&"".to_string()), Bind::Json);
}

#[test]
fn ordinary_bodies_fit() {
    assert!(body_fits(&Body::Object(record(&[("id", 1)]))));
    assert!(body_fits(&Body::Array(vec![Item::Object(record(&[("a", 1)])), Item::Other])));
    assert!(body_fits::<i32>(&Body::Other));
}
