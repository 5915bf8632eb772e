# datafusion

A small SQL query engine over CSV data, written in Verus: the SQL text is tokenized and
parsed into a syntax tree, planned into a logical plan over the known tables, and run by
relational operators (scan, filter, projection, sort, limit) over rows of typed values.
The library's functions carry contracts that Verus proves, except the few trusted
wrappers (marked `#[verifier::external_body]`) that call the `csv` crate or std's
formatting and case mapping; their doc comments say what is taken on trust.

Layout:

- `src/rel.rs` — data types, schemas, values, rows, expressions and logical plans, with
  their mathematical models.
- `src/sql.rs` — the syntax tree of SQL statements.
- `src/parser.rs` — the tokenizer (proved equal to a lexical specification) and the
  parser (proved to return exactly the statement whose tokens the text has).
- `src/sqltorel.rs` — the planner from syntax trees to logical plans.
- `src/catalog.rs` — a map from names to values, each name stored once.
- `src/eval.rs` — evaluation of expressions and the order of values.
- `src/datasource.rs` — reading CSV text (through the `csv` crate) into typed rows.
- `src/relation.rs` — the relational operators over scanned rows.
- `src/exec.rs` — the execution context, data frames and the built-in function names.
- `src/laws.rs` — properties that relate several operations.
- `app/` — file access and the floating-point scalar functions, outside the verified
  library.
