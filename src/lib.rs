//! Generic Stream Encapsulation (GSE): packing upper-layer PDUs into GSE
//! packets and reassembling them on reception.
//!
//! Encapsulation is done by `gse_encap::Encapsulator`, decapsulation by
//! `gse_decap::Decapsulator`. The wire format, the label forms and the
//! header-extension chain are described by spec functions next to the code
//! that reads or writes them.
pub mod crc;
pub mod gse_decap;
pub mod gse_encap;
pub mod gse_standard;
pub mod header_extension;
pub mod label;
pub mod pkt_type;
pub mod utils;
