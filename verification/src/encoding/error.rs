//! Errors raised while encoding or decoding wire data.
use vstd::prelude::*;

use crate::transport::encoding::raptorq::safe::TransmissionInformationError;

verus! {

/// Why a wire value could not be encoded or decoded.
#[derive(Debug, Clone, Copy, PartialEq, Eq)]
pub enum EncodingError {
    /// The input ended before the value was complete.
    UnexpectedEof,
    /// An identifier carries a nonce that does not meet the difficulty.
    InvalidNonce,
    /// The leading byte names no known message type.
    InvalidMessageType(u8),
    /// A chunk carries transmission information that is refused.
    InvalidTransmissionInfo(TransmissionInformationError),
}

} // verus!
