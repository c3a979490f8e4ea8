//! Records of the benchmark datasets.
use vstd::prelude::*;

verus! {

/// One entry of a benchmark dataset: a graph schema, a Cypher query over it
/// and the natural-language question that the query answers.
#[derive(Debug, Clone, PartialEq, Eq)]
pub struct DatasetEntry {
    pub schema: String,
    pub cypher: String,
    pub question: String,
}

/// A benchmark dataset.
pub type Dataset = Vec<DatasetEntry>;

/// A generated triple of schema, Cypher query and question, as the dataset
/// generator records it.
#[derive(Debug, Clone, PartialEq, Eq)]
pub struct Response {
    pub schema: String,
    pub cypher: String,
    pub question: String,
}

} // verus!
