pub mod error;
pub mod sector;
pub mod index;
pub mod reader;
pub mod archive;
pub mod cache;
pub mod primitives;
pub mod checksum;

pub use cache::Cache;
pub use error::CacheError;
