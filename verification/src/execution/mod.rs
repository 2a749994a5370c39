pub mod arith;
pub mod arity;
pub mod builtins;
pub mod calls;
pub mod chunk;
pub mod laws;
pub mod partial;
pub mod properties;
pub mod registry;
pub mod run;
pub mod vm;
