//! Column-layout resolution and the write pipeline of a time-series importer.

pub mod client;
pub mod error;
pub mod mapper;
pub mod text;
pub mod time;
