//! A runtime for authored branching-dialogue graphs: a queryable database over
//! the graph and an interpreter that walks it, with every function verified.
//!
//! - [`model`]: models, pins, connections and the hierarchy tree;
//! - [`json`], [`loader`], [`writer`]: the project file format;
//! - [`validation`], [`hierarchy`], [`database`]: the validated, read-only
//!   store of a project;
//! - [`value`]: runtime values and the state map;
//! - [`syntax`], [`eval`]: the scripting dialect of conditions and instructions;
//! - [`walker`]: the stepping rules of the graph;
//! - [`interpreter`]: the cursor and the protocol of its operations;
//! - [`event`]: the events that an embedder shows;
//! - [`laws`], [`round_trip`]: what holds of all of them together.

pub mod database;
pub mod error;
pub mod eval;
pub mod event;
pub mod hierarchy;
pub mod interpreter;
pub mod json;
pub mod laws;
pub mod loader;
pub mod model;
pub mod round_trip;
pub mod syntax;
pub mod validation;
pub mod value;
pub mod walker;
pub mod writer;

pub use database::{Database, Project};
pub use error::{Error, SchemaFault};
pub use eval::{evaluate_predicate, execute_instructions};
pub use event::{handle_outcome, Choice, Event, Line};
pub use interpreter::{Interpreter, Outcome, DEFAULT_MAX_STEPS};
pub use json::Json;
pub use model::{Connection, Dialogue, HierarchyNode, Model, ModelKind, Pin};
pub use syntax::EvalError;
pub use value::{State, StateValue};
