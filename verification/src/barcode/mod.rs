//! Linear barcodes: the widths of their bars and spaces, and the text printed beside them.

pub mod code128;
pub mod code39;
pub mod ean;
pub mod itf;
pub mod render;
pub mod runs;
pub mod scan;
