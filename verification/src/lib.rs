//! Verified core of a GameCube static recompiler and its host runtime services.
pub mod analysis;
pub mod codegen;
pub mod decoder;
pub mod text;
pub mod memory;
pub mod context;
pub mod dvd;
pub mod os;
pub mod disc;
pub mod dol;
pub mod symbols;
pub mod pipeline;
pub mod input;
