//! DNS messages and their wire form.

pub mod address;
pub mod byte_packet_buffer;
pub mod dnsheader;
pub mod dnspacket;
pub mod dnsquestion;
pub mod dnsrecord;
pub mod error;
pub mod name;
pub mod name_theorems;
pub mod querytype;
pub mod resultcode;
pub mod text;
pub mod theorems;
pub mod wire;
