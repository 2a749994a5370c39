pub mod behaviour;
pub mod checks;
pub mod compiler;
pub mod emission;
