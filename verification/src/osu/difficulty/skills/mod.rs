//! Skills that are measured over a whole map.
pub mod consistency;
pub mod density;
pub mod laws;
pub mod memory;
