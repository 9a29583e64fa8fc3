//! A local index for structured JSON logs, and a query language for it.
//!
//! Lines of JSON become entries ([`parser`]), entries become rows of a SQLite database
//! ([`indexer`]), and a query ([`query_parser`]) becomes a statement whose answer is turned back
//! into entries ([`executor`]). [`language`] says which query a text is, [`meaning`] what a query
//! asks of an entry, and [`table`] what follows of a database that does as it is told. [`ingest`]
//! and [`progress`] run an ingestion; [`api`] and [`cors`] are what an HTTP server needs.
//!
//! Reading input, serving requests and everything else that touches the world but the database is
//! left to the programs around this library.
pub mod api;
pub mod cors;
pub mod entry;
pub mod error;
pub mod executor;
pub mod indexer;
pub mod ingest;
pub mod json;
pub mod language;
pub mod lexer;
pub mod like;
pub mod meaning;
pub mod parser;
pub mod progress;
pub mod query;
pub mod query_parser;
pub mod report;
pub mod store;
pub mod table;
pub mod text;
pub mod time;

pub use entry::LogEntry;
pub use error::{LogdiveError, QueryParseError};
pub use executor::{execute, execute_at};
pub use indexer::{db_path, Indexer, InsertStats, Stats, BATCH_SIZE};
pub use parser::parse_line;
pub use query::{Clause, CompareOp, Duration, DurationUnit, QueryNode, QueryValue};
pub use query_parser::parse as parse_query;
