//! askgrep: grep for questions you cannot write as a pattern.
//!
//! Source files are cut into chunks, each chunk is sent with a question to a
//! model, and the model's probability that the code does what the question
//! says is reported. The modules for the `omni` subcommands hold argument
//! handling and report text.
pub mod text;
pub mod chunk;
pub mod chunk_laws;
pub mod backend;
pub mod jev;
pub mod openai;
pub mod flags;
pub mod goal;
pub mod init;
pub mod dashboard;
pub mod doctor;
pub mod context;
pub mod pi;
