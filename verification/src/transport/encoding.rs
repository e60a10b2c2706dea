//! Transport encoders: the plain one and the RaptorQ one.
use vstd::prelude::*;

pub mod plain_encoder;
pub mod raptorq;

pub use raptorq::decoder::RaptorQDecoder as TransportDecoder;
pub use raptorq::encoder::RaptorQEncoder as TransportEncoder;

verus! {

/// A transport component built from a configuration.
pub trait Configurable: Sized {
    type TConf;

    /// The default configuration.
    fn default_configuration() -> Self::TConf;

    /// Builds the component from `conf`.
    fn configure(conf: &Self::TConf) -> Self;
}

/// Configuration of the transport encoder.
pub type TransportEncoderConfig = raptorq::encoder::RaptorQEncoderConf;

/// Configuration of the transport decoder.
pub type TransportDecoderConfig = raptorq::decoder::RaptorQDecoderConf;

} // verus!
