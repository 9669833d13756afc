//! A single-table, key-value persistence core: typed records are mapped onto
//! one physical table through composite partition/sort keys, queried through
//! index specifications with cursor-based pagination, and enriched with
//! vector embeddings produced by a dedicated encoding worker.

pub mod attrs;
pub mod chat;
pub mod entity;
pub mod errors;
pub mod helpers;
pub mod ids;
pub mod models;
pub mod notes;
pub mod repository;
pub mod service;
pub mod table;
pub mod vector_index;
pub mod worker;
