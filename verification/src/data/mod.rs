//! Market-data files: number fields, event order, fusing and readers.
pub mod archive;
pub mod conversion_laws;
pub mod convert;
pub mod digits;
pub mod fixed;
pub mod format;
pub mod fuse;
pub mod notation;
pub mod npy;
pub mod plain;
pub mod reader;
pub mod reading;
pub mod sorting;
pub mod tardis;
