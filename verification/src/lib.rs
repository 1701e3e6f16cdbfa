//! Schema bookkeeping, SQL text generation and request planning for a
//! service that stores loosely shaped records in PostgreSQL tables, keeping
//! the fields that have no column of their own in a JSONB "variant" column.

pub mod assoc;
pub mod config;
pub mod data;
pub mod error;
pub mod gen;
pub mod postgres;
pub mod schema;
pub mod text;
