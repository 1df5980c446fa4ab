pub mod error;
pub mod execution_engine;
pub mod execution_scope;
pub mod expression;
pub mod javascript_object;
pub mod memory;
pub mod semantics;
