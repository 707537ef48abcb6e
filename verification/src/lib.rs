//! A DNS wire-format codec over a fixed 512-byte packet buffer, together with
//! the decision logic of a forwarding resolver.

pub mod byte_packet_buffer;
pub mod error;
pub mod forward;
pub mod header;
pub mod name;
pub mod name_text;
pub mod packet;
pub mod query;
pub mod record;
