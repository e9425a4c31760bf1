//! A harness that tests an agent: what the agent is expected to do, the server
//! that the agent talks to, and the verdict on its run.

pub mod text;
pub mod text_map;
pub mod text_laws;
pub mod json;
pub mod http_server;
pub mod actions;
pub mod failure;
pub mod environment;
pub mod endpoints;
pub mod runner;
pub mod archive;
pub mod archive_laws;
pub mod container;
pub mod request_laws;
pub mod http_laws;
pub mod laws;
pub mod check_laws;
pub mod verdict_laws;
