//! A hierarchically keyed text store: language -> translation -> book ->
//! chapter -> verse -> text, with point lookup, inclusive verse-range
//! expansion, an atomically swappable snapshot store, and catalog assembly
//! from parsed data files.

pub mod data;
pub mod numeric;
pub mod resolve;
pub mod store;
pub mod loader;
pub mod laws;
