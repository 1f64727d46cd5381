//! Core of a REST client: template interpolation over layered environments
//! and the orchestration of user scripts around a request.

pub mod context;
pub mod environment;
pub mod functions;
pub mod panels;
pub mod resolver;
pub mod resolver_laws;
pub mod runtime;
pub mod runtime_laws;
pub mod text;
pub mod utils;
