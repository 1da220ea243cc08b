//! Finds the module declarations that are direct children of the module
//! scope around a cursor, and the navigation targets they resolve to.

pub mod children_module;
pub mod laws;
pub mod semantics;
pub mod syntax;
