pub mod buffer_pool;
pub mod catalog;
pub mod codec;
pub mod disk;
pub mod error;
pub mod index_page;
pub mod page;
pub mod plan;
pub mod replacer;
pub mod tuple;

pub use catalog::{Column, DataType, Schema, TableReference};
pub use error::{BustubxError, BustubxResult};
pub use page::{PageId, BUSTUBX_PAGE_SIZE, INVALID_PAGE_ID};
pub use tuple::{Rid, ScalarValue, Tuple};
