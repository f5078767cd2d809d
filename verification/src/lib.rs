//! An IPv4 subnetting calculator.
//!
//! From a host address and a subnet mask, entered as dotted-decimal text or
//! as a prefix length, the calculator derives the network address, the
//! broadcast address and the number of usable host addresses.

pub mod address;
pub mod mask;
pub mod state;
pub mod text;
