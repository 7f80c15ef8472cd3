//! HarnessSphere's verified core: the canonical signal model, the supervision
//! policies, and the parsers and accounting rules behind every collector.

pub mod cgroup;
pub mod clock;
pub mod config;
pub mod discovery;
pub mod enrich;
pub mod export;
pub mod host;
pub mod ingest;
pub mod json;
pub mod learning;
pub mod text;
pub mod workspace;
pub mod policy;
pub mod probe;
pub mod ports;
pub mod process;
pub mod prometheus;
pub mod runtime;
pub mod session;
pub mod signal;
