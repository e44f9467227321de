//! A minimal synchronous HTTP/1.1 file-serving endpoint backed by a
//! fixed-size worker pool.
//!
//! Three pieces are verified: the request-line router, the connection
//! handler's request/response pipeline, and the worker pool's job-dispatch
//! protocol, modelled as a state machine whose transitions are the
//! decisions the running pool makes.

pub mod config;
pub mod pool;
pub mod response;
pub mod router;

pub use config::Config;
pub use pool::PoolCreationError;
pub use response::Renderer;
pub use router::RequestMapper;
