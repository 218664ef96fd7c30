pub mod geometry;
pub mod oasis_bytes;
pub mod record_type;
pub mod write_bytes;
pub mod writer;
