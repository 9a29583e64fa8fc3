# logdive

A local index for structured JSON logs, and a query language for it, with the logic verified by
[Verus](https://github.com/verus-lang/verus).

```text
level=error AND service=payments last 2h
message contains "timeout"
since 2026-01-01
```

## Layout

- `src/` is the library. Every function states what it returns in `requires` and `ensures`, and
  Verus proves it.
  - `text`, `json`, `time`: texts, JSON values and instants
  - `entry`, `parser`: a line of a log and the entry that it is
  - `query`, `lexer`, `query_parser`: the query language
  - `executor`, `like`, `meaning`: from a query to SQL, what that asks for, and from rows to entries
  - `store`, `indexer`, `table`: the database
  - `ingest`, `progress`, `report`: what the command line does and shows
  - `api`, `cors`: what the HTTP interface answers
- `app/` is the program around it: arguments, files, standard streams and the server.
- `tests/` runs the library against the real database.

## What is proved, and what is trusted

The calls into `rusqlite`, `serde_json`, `chrono`, `blake3` and `http` are trusted: each is a small
function marked `#[verifier::external_body]`, and its comment says what is believed of it. What a
database holds and answers is not among it: contracts say which statements it was given, in which
transactions, and what becomes of whatever it answered. What follows of a database that keeps to
those statements is proved in `table` and `ingest`, with the table as a hypothesis.

Some of what is proved:

- A query is read as the grammar in `query` says, or refused with the byte where it stops being one
  (`query_parser::parse`).
- A query that was read is never refused for a field name, and its SQL holds no text of the user's
  but those names (`executor::parsed_queries_name_safe_fields`,
  `executor::values_are_bound_not_spelled_out`, `executor::placeholders_match_values`).
- `CONTAINS` matches exactly the texts that contain its value, whatever characters it has
  (`like::contains_clause_is_literal`).
- Every line of an ingestion that is not blank is counted once (`ingest::every_line_is_seen_once`,
  `ingest::storing_keeps_the_count`).
- A batch is written in transactions of at most a thousand entries, with the rows of these entries
  and nothing else; where that fails, the transactions before the failed one stay, none comes after
  it, and the error is that of the call that failed (`Indexer::insert_batch`).

Of a table that takes no two rows with one digest:

- It grows by what is counted as inserted, and where a batch is cut does not matter
  (`table::rows_grow_by_inserted`, `table::cuts_do_not_matter`).
- Ingesting the same lines again adds nothing, whatever the tag
  (`ingest::ingesting_again_adds_nothing`, `table::inserting_again_adds_nothing`).
- An index that was opened has its table and indexes, and opening it again keeps its rows, where
  running the schema makes what is missing and nothing else
  (`table::opening_again_keeps_the_rows`). That the schema was run is what `Indexer::open` says.

Of a query that answers with the rows that meet its conditions, newest first:

- A limit keeps the newest rows, and `AND` is intersection (`table::limits_keep_the_newest`,
  `table::conjunction_is_intersection`).
- The entries of an answer are exactly those that every clause asks for, where conditions are taken
  for what they say in SQL (`meaning::answers_are_what_was_asked`).
- Entries with digests of their own are given back as they were, where the JSON of their members
  reads back (`table::inserted_entries_are_given_back`). It does where no number is fractional,
  nothing is nested too deep and no nested object uses a member name that `serde_json` keeps for
  itself (`json::members_read_back`).
