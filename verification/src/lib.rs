//! HTTP front end and decrypt wire format of the wrapper supervisor.
pub mod batch;
pub mod bytes;
pub mod config;
pub mod connection;
pub mod decrypt;
pub mod error;
pub mod head;
pub mod json;
pub mod query;
pub mod request;
pub mod response;
pub mod text;
