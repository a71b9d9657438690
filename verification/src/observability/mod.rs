pub mod breakers;
pub mod business;
pub mod collector;
pub mod delegation;
pub mod event_stream;
pub mod evolution;
pub mod kernel;
pub mod latency;
pub mod mismatch;
pub mod policy;
pub mod processors;
pub mod redact;
pub mod replay;
pub mod runs;
pub mod signal;
pub mod snapshot;
pub mod signal_laws;
pub mod signal_pipeline;
pub mod spans;
pub mod swarm;
pub mod telemetry;
pub mod views;
pub mod whitebox;
