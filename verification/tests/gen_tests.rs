use pg_variant::gen::{gen_columns, gen_table, is_ascending_description, Field, Index, Table, Typ};
use pg_variant::text::str_less;

fn field(typ: Typ) -> Field {
    Field { typ, default: None, uniq: false, notnull: false }
}

fn lit(t: &str) -> Typ {
    Typ::literal(t.to_string())
}

fn schema() -> Vec<(String, Table)> {
    vec![
        (
            "account".to_string(),
            Table {
                column: vec![
                    ("id".to_string(), field(lit("serial"))),
                    ("name".to_string(), Field { typ: lit("text"), default: None, uniq: true, notnull: true }),
                ],
                primary: Some(vec!["id".to_string()]),
                index: None,
            },
        ),
        (
            "post".to_string(),
            Table {
                column: vec![
                    ("author".to_string(), field(Typ::references(("account".to_string(), "id".to_string())))),
                    ("body".to_string(), Field { typ: lit("jsonb"), default: Some("{}".to_string()), uniq: false, notnull: false }),
                    ("state".to_string(), field(Typ::variant(vec!["draft".to_string(), "live".to_string()]))),
                ],
                primary: None,
                index: Some(vec![
                    Index {
                        column: vec!["author".to_string(), "state".to_string()],
                        typ: Some("btree".to_string()),
                        covering: Some(vec!["body".to_string()]),
                        with: Some(vec![("fillfactor".to_string(), "70".to_string())]),
                        where_: Some("state = 'live'".to_string()),
                    },
                    Index { column: vec!["body".to_string()], typ: None, covering: None, with: None, where_: None },
                ]),
            },
        ),
    ]
}

#[test]
fn literal_types_are_uppercased() {
    let s = schema();
    let c = gen_columns(&"account".to_string(), &"name".to_string(), &s[0].1.column[1].1, &s);
    assert_eq!(c.typ, "TEXT");
    assert_eq!(c.x, vec!["NOT NULL", "UNIQ"]);
    assert!(c.refs.is_none());
    assert!(c.enu.is_none());
    assert_eq!(c.to_string(), "    name TEXT");
}

#[test]
fn references_take_the_base_type() {
    let s = schema();
    let c = gen_columns(&"post".to_string(), &"author".to_string(), &s[1].1.column[0].1, &s);
    assert_eq!(c.typ, "INTEGER");
    assert_eq!(c.refs.as_deref(), Some("REFERENCES account (id)"));
    assert_eq!(c.to_string(), "    author INTEGER");
}

#[test]
fn bigserial_references_become_biginteger() {
    let s = vec![(
        "a".to_string(),
        Table { column: vec![("id".to_string(), field(lit("bigserial")))], primary: None, index: None },
    )];
    let f = field(Typ::references(("a".to_string(), "id".to_string())));
    let c = gen_columns(&"b".to_string(), &"a_id".to_string(), &f, &s);
    assert_eq!(c.typ, "BIGINTEGER");
    let g = Field { typ: Typ::references(("a".to_string(), "id".to_string())), default: Some("0".to_string()), uniq: false, notnull: true };
    assert_eq!(gen_columns(&"b".to_string(), &"x".to_string(), &g, &s).to_string(), "    x BIGINTEGER");
}

#[test]
fn jsonb_defaults_are_cast() {
    let s = schema();
    let c = gen_columns(&"post".to_string(), &"body".to_string(), &s[1].1.column[1].1, &s);
    assert_eq!(c.typ, "JSONB");
    assert_eq!(c.x, vec!["DEFAULT '{}'::JSONB"]);
    let plain = Field { typ: lit("int"), default: Some("3".to_string()), uniq: false, notnull: false };
    assert_eq!(gen_columns(&"t".to_string(), &"n".to_string(), &plain, &s).x, vec!["DEFAULT 3"]);
}

#[test]
fn enumerated_columns_get_their_own_type() {
    let s = schema();
    let c = gen_columns(&"post".to_string(), &"state".to_string(), &s[1].1.column[2].1, &s);
    assert_eq!(c.typ, "post_state");
    assert_eq!(c.enu, Some(vec!["draft".to_string(), "live".to_string()]));
}

#[test]
fn whole_schema() {
    let out = gen_table(&schema());
    assert_eq!(
        out,
        vec![
            "CREATE TABLE account (\n    id SERIAL,\n    name TEXT,\n    PRIMARY KEY (id)\n);".to_string(),
            "CREATE TYPE post_state AS ENUM ('draft', 'live');".to_string(),
            "CREATE TABLE post (\n    author INTEGER,\n    body JSONB,\n    state post_state\n);".to_string(),
            "CREATE INDEX idx_post_author_state on post USING BTREE (author, state) INCLUDE (body) WITH (fillfactor = 70) WHERE state = 'live';".to_string(),
            "CREATE INDEX idx_post_body on post (body);".to_string(),
        ]
    );
}

#[test]
fn empty_schema_has_no_statements() {
    assert!(gen_table(&Vec::new()).is_empty());
}

#[test]
fn description_order_is_checked() {
    assert!(is_ascending_description(&schema()));
    let mut s = schema();
    s.swap(0, 1);
    assert!(!is_ascending_description(&s));
    let mut s = schema();
    s[1].1.column.swap(0, 2);
    assert!(!is_ascending_description(&s));
    let mut s = schema();
    if let Some(ixs) = &mut s[1].1.index {
        ixs[0].with = Some(vec![("b".to_string(), "1".to_string()), ("a".to_string(), "2".to_string())]);
    }
    assert!(!is_ascending_description(&s));
    let mut s = schema();
    s.push(("post".to_string(), Table { column: Vec::new(), primary: None, index: None }));
    assert!(!is_ascending_description(&s));
}

#[test]
fn string_order_matches_std() {
    let words = ["", "a", "ab", "b", "Z", "é", "aa", "ä"];
    for x in words.iter() {
        for y in words.iter() {
            assert_eq!(str_less(&x.to_string(), &y.to_string()), x < y, "{} {}", x, y);
        }
    }
}

#[test]
fn constraints_are_kept_but_not_written() {
    let s = schema();
    let g = Field { typ: Typ::references(("account".to_string(), "id".to_string())), default: Some("0".to_string()), uniq: true, notnull: true };
    let c = gen_columns(&"post".to_string(), &"x".to_string(), &g, &s);
    assert_eq!(c.x, vec!["NOT NULL", "DEFAULT 0", "UNIQ"]);
    assert_eq!(c.refs.as_deref(), Some("REFERENCES account (id)"));
    assert_eq!(c.to_string(), "    x INTEGER");
}

#[test]
fn uppercase_beyond_ascii() {
    let s = schema();
    let c = gen_columns(&"t".to_string(), &"n".to_string(), &field(lit("straße")), &s);
    assert_eq!(c.typ, "STRASSE");
}
