//! IPv4 subnet boundaries from CIDR notation: a line `A.B.C.D/P` is read as
//! four octets and a prefix length, and the subnet that the address lies in
//! is computed from them — its network and broadcast address, its first and
//! last host address, and how many addresses it holds.

pub mod address;
pub mod decimal;
pub mod parse;
pub mod render;
pub mod subnet;

pub use crate::parse::parse_user_cidr_input;
pub use crate::parse::ParseError;
pub use crate::render::binary_subnet_str_to_base10_octets;
pub use crate::render::binary_subnet_str_to_octets;
pub use crate::render::octets_to_binary_num_str;
pub use crate::subnet::subnet_calcs;
pub use crate::subnet::Subnet;
