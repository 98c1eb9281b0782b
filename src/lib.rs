//! Turns a short command line into one invocation of curl: argument parsing,
//! URL whitespace encoding, default file names and version-gated flags.
pub mod codec;
pub mod command;
pub mod config;
pub mod filename;
pub mod parser;
pub mod text;
pub mod version;
