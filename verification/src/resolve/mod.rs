//! What is made of the upstreams' answers: each function here takes what an upstream
//! returned and builds the part of a catalog it stands for.

pub mod docker;
pub mod error;
pub mod http;
pub mod java;
pub mod builds;
pub mod minecraft;
pub mod proxy;
pub mod runtime;
