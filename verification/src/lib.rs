//! Binding generation for TypeScript declaration programs: from the parsed
//! modules of a program to a description of what the program exports.
//!
//! The stages, in the order in which they run:
//!
//! - `bind_init` gathers the modules of a program into a cache;
//! - `bind_graph_init` builds the binding graph: what each module declares
//!   and exports itself, and its imports and re-exports in source order;
//! - `graph_reduce` follows every re-export to the module that declares
//!   what is handed on;
//! - `typify_graph` describes the type of every rooted export, with
//!   `type_scope` and `type_construction` finding what names and
//!   annotations stand for;
//! - `strictness` finds the annotations that typification takes for `any`;
//! - `ts_flavor` holds the features that are used against those that a
//!   target supports;
//! - `emit`, with `json_emit` and `js_emit`, computes the artifacts.
//!
//! `generate` runs them all. `graph_facts`, `type_facts` and `arena_facts`
//! state what holds of the graphs that the stages hand on.

pub mod arena_facts;
pub mod ast;
pub mod bind_graph_init;
pub mod bind_init;
pub mod config;
pub mod emit;
pub mod error;
pub mod generate;
pub mod graph_facts;
pub mod graph_reduce;
pub mod js_emit;
pub mod json_emit;
pub mod strictness;
pub mod structures;
pub mod ts_flavor;
pub mod type_construction;
pub mod type_facts;
pub mod type_scope;
pub mod type_structs;
pub mod typify_graph;
