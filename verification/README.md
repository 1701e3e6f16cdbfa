# pg_variant

A service that stores loosely shaped JSON records in PostgreSQL tables. Fields
that match a column of the target table go to that column; the others are
gathered into a JSONB "variant" column named by the request. A companion
generator turns a TOML schema description into `CREATE TYPE`, `CREATE TABLE`
and `CREATE INDEX` statements.

- `src/` is the library, verified with Verus: the schema cache (`schema`),
  request planning (`data`), the SQL text of inserts and the reading of the
  catalogue (`postgres`), DDL generation (`gen`), configuration rendering
  (`config`), errors (`error`), and string and association-list helpers
  (`text`, `assoc`).
- `app/` is the program around it: configuration loading, the HTTP routes,
  the PostgreSQL connection, and the generator's command line (run the
  program with a description file as its argument).
- `tests/` runs the library on concrete inputs.
