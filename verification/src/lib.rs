//! Codec for the Sigma wire protocol: requests made of tagged fields are
//! written as length-prefixed messages, and responses are read back from
//! such messages.

pub mod ascii;
pub mod assemble;
pub mod bcd;
pub mod error;
pub mod field;
pub mod frame;
pub mod json;
pub mod order;
pub mod random;
pub mod request;
pub mod response;
pub mod tag;
pub mod text;
pub mod wire;

pub use crate::assemble::Scalar;
pub use crate::bcd::{decode_bcd_x4, encode_bcd_x4};
pub use crate::error::Error;
pub use crate::field::{decode_field, encode_field_to_buf};
pub use crate::random::gen_random_auth_serno;
pub use crate::request::SigmaRequest;
pub use crate::response::{FeeData, SigmaResponse};
pub use crate::tag::Tag;
