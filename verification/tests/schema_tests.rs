use pg_variant::config::DataMap;
use pg_variant::postgres::{entity_from_rows, ColumnRow};
use pg_variant::schema::{Column, Entity, Store, Table};

fn table(cols: &[(&str, &str)], variant: &[&str], pk: &[&str]) -> Table {
    Table {
        primary_key: pk.iter().map(|s| s.to_string()).collect(),
        variant: variant.iter().map(|s| s.to_string()).collect(),
        column: cols
            .iter()
            .map(|(n, t)| (n.to_string(), Column { nullable: true, data_type: t.to_string() }))
            .collect(),
    }
}

fn entity(schema: &str, name: &str, t: Table) -> Entity {
    Entity { schema: schema.to_string(), table: name.to_string(), content: t }
}

fn store() -> Store<(), ()> {
    Store::new((), None, DataMap(Vec::new()), ())
}

fn names(t: &Table) -> Vec<String> {
    t.column.iter().map(|(n, _)| n.clone()).collect()
}

#[test]
fn new_store_is_empty() {
    let s = store();
    assert!(s.schema.is_empty());
    assert!(s.list().is_empty());
}

#[test]
fn get_after_update_returns_the_table() {
    let mut s = store();
    assert!(s.update(entity("public", "users", table(&[("id", "i64"), ("ext", "jsonb")], &["ext"], &["id"]))).is_ok());
    let t = s.get(&"public".to_string(), &"users".to_string()).ok().unwrap();
    assert_eq!(names(&t), vec!["id", "ext"]);
    assert_eq!(t.variant, vec!["ext"]);
    assert_eq!(t.primary_key, vec!["id"]);
}

#[test]
fn get_of_unknown_table_is_not_fount() {
    let mut s = store();
    s.update(entity("public", "users", table(&[("id", "i64")], &[], &[]))).unwrap();
    match s.get(&"public".to_string(), &"orders".to_string()) {
        Err(e) => assert_eq!(e.0, "not fount"),
        Ok(_) => panic!("expected an error"),
    }
    match s.get(&"other".to_string(), &"users".to_string()) {
        Err(e) => assert_eq!(e.0, "not fount"),
        Ok(_) => panic!("expected an error"),
    }
}

#[test]
fn update_replaces_and_keeps_others() {
    let mut s = store();
    s.update(entity("public", "users", table(&[("id", "i64")], &[], &[]))).unwrap();
    s.update(entity("public", "orders", table(&[("n", "i64")], &[], &[]))).unwrap();
    s.update(entity("audit", "log", table(&[("at", "date")], &[], &[]))).unwrap();
    s.update(entity("public", "users", table(&[("id", "i64"), ("name", "str")], &[], &[]))).unwrap();
    let u = s.get(&"public".to_string(), &"users".to_string()).ok().unwrap();
    assert_eq!(names(&u), vec!["id", "name"]);
    let o = s.get(&"public".to_string(), &"orders".to_string()).ok().unwrap();
    assert_eq!(names(&o), vec!["n"]);
    assert_eq!(s.list(), vec!["public.users", "public.orders", "audit.log"]);
}

#[test]
fn sync_serves_the_cache_unless_forced() {
    let mut s = store();
    let public = "public".to_string();
    let users = "users".to_string();
    assert!(s.sync_cached(&public, &users, &None).is_none());
    let t = s.sync_store(entity("public", "users", table(&[("id", "i64")], &[], &[])));
    assert_eq!(names(&t), vec!["id"]);
    assert_eq!(names(&s.sync_cached(&public, &users, &None).unwrap()), vec!["id"]);
    assert_eq!(names(&s.sync_cached(&public, &users, &Some(false)).unwrap()), vec!["id"]);
    assert!(s.sync_cached(&public, &users, &Some(true)).is_none());
}

#[test]
fn has_variant_checks_membership() {
    let t = table(&[], &["ext", "meta"], &[]);
    assert!(t.has_variant(&"meta".to_string()));
    assert!(!t.has_variant(&"id".to_string()));
}

fn row(name: &str, nullable: &str, typ: &str, pk: bool) -> ColumnRow {
    ColumnRow {
        column_name: name.to_string(),
        is_nullable: nullable.to_string(),
        data_type: typ.to_string(),
        pk,
    }
}

#[test]
fn catalogue_rows_make_a_table() {
    let rows = vec![
        row("id", "NO", "bigint", true),
        row("name", "YES", "text", false),
        row("ext", "YES", "jsonb", false),
        row("tenant", "NO", "integer", true),
    ];
    let e = entity_from_rows(&"public".to_string(), &"users".to_string(), &rows);
    assert_eq!(e.schema, "public");
    assert_eq!(e.table, "users");
    assert_eq!(e.content.primary_key, vec!["id", "tenant"]);
    assert_eq!(e.content.variant, vec!["ext"]);
    assert_eq!(names(&e.content), vec!["id", "name", "ext", "tenant"]);
    assert!(!e.content.column[0].1.nullable);
    assert!(e.content.column[1].1.nullable);
    assert_eq!(e.content.column[2].1.data_type, "jsonb");
}

#[test]
fn catalogue_rows_repeated_column_keeps_the_last() {
    let rows = vec![row("ext", "YES", "jsonb", false), row("ext", "NO", "jsonb", true)];
    let e = entity_from_rows(&"s".to_string(), &"t".to_string(), &rows);
    assert_eq!(e.content.variant, vec!["ext"]);
    assert_eq!(e.content.column.len(), 1);
    assert!(!e.content.column[0].1.nullable);
    assert_eq!(e.content.primary_key, vec!["ext"]);
}

#[test]
fn store_keeps_its_pool_and_client() {
    let mut s: Store<u8, &str> = Store::new(3, Some(vec!["users".to_string()]), DataMap(Vec::new()), "pool");
    assert_eq!(s.redis, "pool");
    assert_eq!(s.client, 3);
    assert_eq!(s.allow_list, Some(vec!["users".to_string()]));
    s.update(entity("public", "users", table(&[("id", "i64")], &[], &[]))).unwrap();
    assert_eq!(s.redis, "pool");
    assert_eq!(s.client, 3);
}
