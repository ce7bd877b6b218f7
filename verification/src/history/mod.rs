//! Bounded, newest-first lookups in an append-only history log.

pub mod batch;
pub mod calls;
pub mod laws;
pub mod lookup;
pub mod rows;
pub mod scan;
pub mod window;
