//! Templates: what to load, and where each field of an object comes from.

use vstd::prelude::*;

verus! {

/// A template.
#[derive(Debug)]
pub struct TemplateConfig {
    pub name: String,
    pub version: u32,
    pub description: String,
    pub target: TemplateTarget,
    pub options: TemplateOptions,
    pub fields: Vec<TemplateField>,
}

/// The kind of object that is loaded, and the operation: `insert` or `update`.
#[derive(Debug)]
pub struct TemplateTarget {
    pub object: String,
    pub operation: String,
}

/// With `strict_headers`, every column that the template takes a value from
/// must be there.
#[derive(Debug)]
pub struct TemplateOptions {
    pub strict_headers: bool,
}

/// Where the field `target` of an object comes from: a column of the row, a
/// formula on the row, or the record that a lookup finds.
#[derive(Debug)]
pub enum TemplateField {
    Column { target: String, source: String, required: Option<bool> },
    Formula { target: String, expr: String },
    Reference { target: String, lookup: TemplateLookup },
}

/// How a record is found: by the first of `match_rules` that matches.
#[derive(Debug)]
pub struct TemplateLookup {
    pub object: String,
    pub strategy: String,
    pub match_rules: Vec<TemplateMatchRule>,
    pub on_missing: String,
    pub on_multiple: String,
}

/// A record matches where its field `field` is the value of the formula
/// `value`.
#[derive(Debug)]
pub struct TemplateMatchRule {
    pub field: String,
    pub value: String,
}

} // verus!
