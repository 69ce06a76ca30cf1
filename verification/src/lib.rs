//! A minimal concurrent request server core: a fixed-size worker pool
//! modelled as a verified scheduling state machine, plus a bare-bones
//! HTTP message reader/writer with byte-exact contracts.

pub mod handler;
pub mod pool;
pub mod request;
pub mod response;
pub mod routes;

pub use handler::handler;
pub use pool::ThreadPool;
pub use request::Request;
pub use response::Response;
pub use routes::Routes;
