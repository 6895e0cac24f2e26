//! The items most calls need.

pub use crate::client::{Client, StreamingClient};
pub use crate::encoding::GrpcWebContentType;
pub use crate::error::{Error, Result};
pub use crate::metadata::Metadata;
pub use crate::status::StatusCode;
