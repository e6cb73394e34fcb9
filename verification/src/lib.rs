//! Reading and writing of device tree blobs (DTB).

mod common;
pub mod split;
pub mod dtb_format;
pub mod internal;
mod struct_item;
mod writer;
pub mod laws;

pub use crate::common::{Error, ReservedMemEntry, Result};
pub use crate::struct_item::StructItem;
pub use crate::writer::{ReservedMem, Writer};
