//! A domain-rewriting HTTP reverse proxy library.
//!
//! The library holds the verified core of the proxy: the alias table and its
//! literal substitution engine, configuration validation, the HTTP message
//! model, the authorization gate with its durable token store, the
//! content-encoding body codec, and the request/response forward pipeline.
//! Network listening, upstream dialing and configuration parsing live in the
//! surrounding application, which exchanges plain values with this library.

pub mod auth;
pub mod codec;
pub mod config;
pub mod domain;
pub mod httpmodel;
pub mod json;
pub mod pipeline;
pub mod store;
pub mod textops;
