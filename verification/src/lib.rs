//! Apache IoTDB client for Rust.
//!
//! Provides two data models over Apache Thrift RPC (default port 6667):
//! - **Tree model**: [`Session`] / [`SessionPool`] — device/timeseries paths
//! - **Table model**: [`TableSession`] / [`TableSessionPool`] — SQL dialect
//!
//! Layers: Pool (round-robin over node urls) → Session → Connection (framed
//! transport + binary protocol). This crate holds the data structures, the
//! wire formats and every decision; it does no I/O. Whoever drives it opens
//! connections, sends the requests it makes and hands it the answers.

pub mod chars;
pub mod chars_laws;
pub mod client;
pub mod connection;
pub mod data;
pub mod error;
pub mod order;
pub mod protocol;
pub mod text;
pub mod time;
pub mod wire;

pub use client::dataset::{NextRow, Row, SessionDataSet};
pub use client::pool::{SessionPool, SessionPoolConfig, TableSessionPool};
pub use client::redirect::{RedirectCache, RedirectCacheStats};
pub use client::session::{QueryHandle, Session, SessionConfig};
pub use client::table_session::{TableSession, TableSessionBuilder};
pub use connection::Endpoint;
pub use data::{ColumnCategory, Float32, Float64, TSDataType, Tablet, TsBlock, Value};
pub use error::{Error, Result};
