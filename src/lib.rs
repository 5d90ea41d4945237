//! Byte patterns written as hex strings, and plans that read fixed-layout
//! binary records field by field, checking each field against its pattern.
pub mod byte_pattern;
pub mod hex_string;
pub mod hex_struct;
pub mod hex_struct_field;
pub mod render;
