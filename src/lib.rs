//! Retrieval support core: chunking, content hashing, a fixed-point similarity
//! index and the store that keeps chunks, embeddings and index in lockstep.

pub mod chunker;
pub mod config;
pub mod errors;
pub mod hashing;
pub mod index;
pub mod models;
pub mod prompts;
pub mod ranking;
pub mod retrieval;
pub mod store;
mod text;
pub mod vector;
