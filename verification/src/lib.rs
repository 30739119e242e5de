//! Dependency-impact analysis for source repositories.
mod text;
mod paths;
pub mod collections;
pub mod graph;
pub mod facts;
pub mod alias;
pub mod manifest;
pub mod walk;
pub mod resolve;
pub mod config;
pub mod javascript;
pub mod python;
pub mod ruby;
pub mod java;
pub mod rust_lang;
pub mod language;
pub mod analyze;
pub mod impacts;
pub mod run;
pub mod diagnostics;
pub mod theme;
pub mod graph_formats;
pub mod cascade;
pub mod order;
pub mod tree;
pub mod groups;
pub mod report;
pub mod lines;
pub mod java_parse;
pub mod ruby_parse;
pub mod js_facts;
pub mod js_syntax;
pub mod component;
pub mod python_parse;
pub mod rust_parse;
pub mod hooks;
pub mod gate;
pub mod pipeline;
