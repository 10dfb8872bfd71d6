//! Transcript corpus ingestion and querying.
//!
//! A corpus is a listing of season directories, each holding episode files of
//! dialogue lines. The crate classifies the names, splits the lines, resolves
//! seasons, episodes and speakers to surrogate ids in a relational dataset,
//! and composes the sampling and search reads over that dataset.
//!
//! - [`text`], [`classify`], [`splitter`]: names and lines.
//! - [`corpus`], [`plan`]: a corpus as read, and the plan of its import.
//! - [`models`], [`error`], [`dataset`]: the rows, the faults, and the
//!   dataset with its lookup-or-insert operations.
//! - [`importer`]: the import as one unit of work.
//! - [`query`], [`statement`], [`reads`]: the reads, on the rows and as
//!   statements for a relational store.
//! - [`session`]: where the files of a session lie.
//! - [`laws`], [`numbering`], [`success`]: what holds of every import.

pub mod classify;
pub mod corpus;
pub mod dataset;
pub mod error;
pub mod importer;
pub mod laws;
pub mod models;
pub mod numbering;
pub mod plan;
pub mod query;
pub mod reads;
pub mod session;
pub mod splitter;
pub mod statement;
pub mod success;
pub mod text;
