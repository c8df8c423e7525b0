//! An asynchronous multi-sink logging engine: producers emit records into a
//! bounded ingress queue, a formatter stage renders each record once and fans
//! it out to every sink queue, and sink workers drain their queues into the
//! configured appenders. Rolling files, retention and packing are modelled as
//! decision logic over plain values; the surrounding process (threads,
//! channels, file handles) drives these decisions from outside.

pub mod appender;
pub mod date;
pub mod fastlog;
pub mod plugin;
pub mod error;

pub use error::LogError;
