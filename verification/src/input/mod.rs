//! Controller input: backend-independent controller descriptions, the
//! decisions of the individual backends, GameCube mapping data, and the
//! registry that gives each physical controller a stable ID.
pub mod backends;
pub mod controller;
pub mod mapping;
