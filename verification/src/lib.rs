pub mod bitfield;
pub mod endian;
mod foreign;
pub mod mtf;
pub mod mtf_api;
pub mod names;
pub mod packed_bits;
pub mod packed_bits_container;
pub mod packed_struct_container;
pub mod packed_structs;
pub mod pak;
pub mod raw_bytes;
pub mod save;
pub mod text;
