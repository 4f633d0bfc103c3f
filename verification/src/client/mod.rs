//! Sessions, result sets, pools and redirect hints.

pub mod dataset;
pub mod dataset_laws;
pub mod pool;
pub mod pool_laws;
pub mod redirect;
pub mod redirect_laws;
pub mod session;
pub mod table_session;
