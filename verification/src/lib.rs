//! Verified core of a local, private AI chat: prompt assembly within a token
//! budget, retrieval ranking, runtime and provider decisions, and the stream
//! decoders the providers speak.

pub mod budget;
pub mod chat;
pub mod config;
pub mod connections;
pub mod context;
pub mod documents;
pub mod download;
pub mod onnxruntime;
pub mod platform;
pub mod pdfium;
pub mod providers;
pub mod rag;
pub mod ranking;
pub mod retrieval;
pub mod runtime;
pub mod schema;
pub mod stream;
pub mod stamp;
pub mod text;

