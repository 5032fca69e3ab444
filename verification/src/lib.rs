pub mod bytes;
pub mod error;
pub mod instruction;
pub mod processor;
pub mod runtime;
pub mod state;
