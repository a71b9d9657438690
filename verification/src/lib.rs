pub mod artifact;
pub mod chat;
pub mod cli;
pub mod clock;
pub mod compiler;
pub mod config;
pub mod dependencies;
pub mod digest;
pub mod groups;
pub mod keyed;
pub mod lexical;
pub mod memory;
pub mod numbers;
pub mod observability;
pub mod orchestration;
pub mod providers;
pub mod relations;
pub mod text;
pub mod timeline;
