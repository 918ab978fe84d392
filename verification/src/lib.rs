//! Verified core of a client for Solarman data logging sticks and of a
//! Prometheus exporter built on it.
pub mod protocol;
pub mod codec;
pub mod modbus;
pub mod client;
pub mod metric;
pub mod mapping;
pub mod grouping;
pub mod sorting;
pub mod store;
pub mod decimal;
