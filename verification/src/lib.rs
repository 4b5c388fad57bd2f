//! A concurrent HTTP load-generation benchmark core.
//!
//! The library holds the verified logic of the benchmark: the per-request
//! result model, URL template rendering, the worker state machine, the
//! result store with its merge step, and the statistics engine. The
//! surrounding binary supplies the HTTP transport, the threads and the
//! report formatting.

pub mod record;
pub mod report;
pub mod stats;
pub mod store;
pub mod template;
pub mod worker;
