//! chitta: the working model of a person, kept as typed memories.

pub mod consolidated;
pub mod db;
pub mod error;
pub mod facets;
pub mod floats;
pub mod hash;
pub mod hybrid;
pub mod ids;
pub mod ingest;
pub mod json;
pub mod llm;
pub mod migrate;
pub mod order;
pub mod reflect;
pub mod retrieval;
pub mod sql;
pub mod synthesis;
pub mod text;
pub mod time;
pub mod tools;
pub mod validators;
