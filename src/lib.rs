//! A small relational engine: a SQL dialect of CREATE TABLE, INSERT and SELECT with one
//! WHERE condition, typed values checked against table schemas, and an in-memory store.

pub mod executor;
pub mod parser;
pub mod render;
pub mod storage;
pub mod text;
pub mod types;
