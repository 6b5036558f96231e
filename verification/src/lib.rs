//! Extraction of structured records from HTML tables.
//!
//! The `html` module turns raw HTML into a plain, in-memory description of
//! every `<table>` element. The `table` module builds a header-indexed grid
//! of cell strings from such a description and offers three ways to locate a
//! table: the first one, one by its `id`, or one by the headers it carries.
//! The `qqtable` module converts a located group-member table into typed
//! membership records and lays them out as rows for delimited output.

pub mod html;
pub mod qqtable;
pub mod table;
