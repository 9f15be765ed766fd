pub mod adapters;
pub mod domain;
pub mod grammar;
pub mod executors;
pub mod host;
pub mod parser;
pub mod path;
pub mod text;

pub use crate::domain::{Action, App, Dependency, DependencyCheck};
