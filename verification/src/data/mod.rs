pub mod gc;
pub mod objects;
