//! A template-driven loader of tabular data into Salesforce.
//!
//! A template says what to load and where each field of an object comes from:
//! a column of the data, a formula on the row, or a record that is looked up.
//! The library reads the rows, finds out what has to be looked up and how to
//! ask for it, builds the objects, and writes them as CSV; what is run, sent
//! and shown is left to the program around it.

pub mod text;
pub mod text_laws;

pub mod fields;
pub mod template;
pub mod error;

pub mod grammar;
pub mod formula;
pub mod formula_laws;
pub mod reading_laws;

pub mod paths;
pub mod import;
pub mod import_laws;

pub mod lists;
pub mod cache;
pub mod keys;
pub mod queries;
pub mod query_laws;
pub mod lookup;
pub mod lookup_laws;
pub mod view_laws;

pub mod objects;
pub mod object_laws;

pub mod export;
pub mod export_laws;

pub mod json;
pub mod salesforce;
pub mod salesforce_laws;
pub mod session;
pub mod session_laws;
