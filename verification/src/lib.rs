//! Turns review findings into code contributions: prompts, reply parsing,
//! search/replace edits, validation and naming.

pub mod brackets;
pub mod case;
pub mod changes;
pub mod chars;
pub mod cross_files;
pub mod edits;
pub mod extract;
pub mod generator;
pub mod guidelines;
pub mod json;
pub mod json_text;
pub mod models;
pub mod naming;
pub mod outside;
pub mod overlap;
pub mod patterns;
pub mod pipeline;
pub mod prompts;
pub mod review;
pub mod text;
pub mod text_laws;
pub mod validate;
