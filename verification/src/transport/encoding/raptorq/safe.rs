//! Checked reading of the RaptorQ transmission information, so that no
//! decoder is ever built from parameters that would make it panic.
use vstd::prelude::*;

use super::encoder::MAX_MTU;
use super::TRANSMISSION_INFO_SIZE;
use crate::encoding::read_array_12;

verus! {

/// `ceil(num / denom)`, truncated to `u32`.
pub open spec fn spec_int_div_ceil(num: u64, denom: u64) -> u32 {
    if num % denom == 0 {
        (num / denom) as u32
    } else {
        (num / denom + 1) as u32
    }
}

/// `ceil(num / denom)`, truncated to `u32` (the callers know it fits).
pub fn int_div_ceil(num: u64, denom: u64) -> (r: u32)
    requires
        denom > 0,
    ensures
        r == spec_int_div_ceil(num, denom),
{
    if num % denom == 0 {
        (num / denom) as u32
    } else {
        assert(num / denom < u64::MAX) by (nonlinear_arith)
            requires
                denom > 1,
        ;
        (num / denom + 1) as u32
    }
}

/// K'_max as defined in section 5.1.2 of RFC 6330.
pub const MAX_SOURCE_SYMBOLS_PER_BLOCK: u32 = 56403;

/// The fields of a RaptorQ transmission information.
#[derive(Debug, Clone, Copy, PartialEq, Eq)]
pub struct OtiFields {
    pub transfer_length: u64,
    pub symbol_size: u16,
    pub source_blocks: u8,
    pub sub_blocks: u16,
    pub symbol_alignment: u8,
}

/// The fields read from 12 bytes, as `raptorq`'s
/// `ObjectTransmissionInformation::deserialize` reads them: a 40-bit
/// big-endian transfer length, a reserved byte, a big-endian symbol size, the
/// number of source blocks, a big-endian number of sub-blocks, and the symbol
/// alignment.
pub open spec fn spec_oti_fields(b: Seq<u8>) -> OtiFields {
    OtiFields {
        transfer_length: (b[0] * 0x1_0000_0000 + b[1] * 0x100_0000 + b[2] * 0x1_0000 + b[3]
            * 0x100 + b[4]) as u64,
        symbol_size: (b[6] * 0x100 + b[7]) as u16,
        source_blocks: b[8],
        sub_blocks: (b[9] * 0x100 + b[10]) as u16,
        symbol_alignment: b[11],
    }
}

/// Reads the fields of a transmission information.
pub fn oti_deserialize(data: &[u8; 12]) -> (r: OtiFields)
    ensures
        r == spec_oti_fields(data@),
{
    OtiFields {
        transfer_length: (data[0] as u64) * 0x1_0000_0000 + (data[1] as u64) * 0x100_0000 + (
        data[2] as u64) * 0x1_0000 + (data[3] as u64) * 0x100 + (data[4] as u64),
        symbol_size: (data[6] as u16) * 0x100 + (data[7] as u16),
        source_blocks: data[8],
        sub_blocks: (data[9] as u16) * 0x100 + (data[10] as u16),
        symbol_alignment: data[11],
    }
}

/// Partition[I, J] as defined in section 4.4.1.2 of RFC 6330.
pub open spec fn spec_partition(i: u32, j: u32) -> (u32, u32, u32, u32) {
    let il = spec_int_div_ceil(i as u64, j as u64);
    let is = i / j;
    let jl = i - is * j;
    let js = j - jl;
    (il, is as u32, jl as u32, js as u32)
}

/// Partition[I, J] as defined in section 4.4.1.2 of RFC 6330 (the
/// `raptorq::partition` function).
pub fn partition(i: u32, j: u32) -> (r: (u32, u32, u32, u32))
    requires
        j > 0,
    ensures
        r == spec_partition(i, j),
        r.2 + r.3 == j,
{
    let il = int_div_ceil(i as u64, j as u64);
    let is = i / j;
    assert(is * j <= i) by (nonlinear_arith)
        requires
            is == i / j,
            j > 0,
    ;
    assert(i - is * j < j) by (nonlinear_arith)
        requires
            is == i / j,
            j > 0,
    ;
    let jl = i - is * j;
    let js = j - jl;
    (il, is, jl, js)
}

/// Why transmission information is refused.
#[derive(Debug, Clone, Copy, PartialEq, Eq)]
pub enum TransmissionInformationError {
    InvalidSize,
    SourceBlocksZero,
    SymbolSizeZero,
    SymbolSizeGreaterThanMTU,
    SymbolSizeNotAligned,
    TransferLengthZero,
    TransferLengthExceeded,
    TooManySourceSymbols,
}

/// Checking a transmission information: the fields read and the number of
/// source blocks, or why it is refused.
pub open spec fn spec_safe_oti(b: Seq<u8>) -> Result<(OtiFields, nat), TransmissionInformationError> {
    if b.len() != TRANSMISSION_INFO_SIZE {
        Err(TransmissionInformationError::InvalidSize)
    } else {
        let c = spec_oti_fields(b);
        if c.source_blocks == 0 {
            Err(TransmissionInformationError::SourceBlocksZero)
        } else if c.symbol_size == 0 {
            Err(TransmissionInformationError::SymbolSizeZero)
        } else if c.transfer_length == 0 {
            Err(TransmissionInformationError::TransferLengthZero)
        } else if c.symbol_size > MAX_MTU {
            Err(TransmissionInformationError::SymbolSizeGreaterThanMTU)
        } else if c.symbol_alignment != 8 {
            Err(TransmissionInformationError::SymbolSizeNotAligned)
        } else {
            let kt = spec_int_div_ceil(c.transfer_length, c.symbol_size as u64);
            let p = spec_partition(kt, c.source_blocks as u32);
            let block_length = (p.0 as u64 * c.symbol_size as u64) as u64;
            if spec_int_div_ceil(block_length, c.symbol_size as u64) <= MAX_SOURCE_SYMBOLS_PER_BLOCK {
                Ok((c, (p.2 + p.3) as nat))
            } else {
                Err(TransmissionInformationError::TooManySourceSymbols)
            }
        }
    }
}

/// A transmission information that passed the checks, with the number of
/// source blocks it announces.
#[derive(Debug, Clone, Copy)]
pub struct SafeObjectTransmissionInformation {
    pub inner: OtiFields,
    pub bytes: [u8; 12],
    pub max_blocks: usize,
}

impl SafeObjectTransmissionInformation {
    /// Checks the transmission information in `value`.
    pub fn try_from(value: &[u8]) -> (r: Result<Self, TransmissionInformationError>)
        ensures
            match spec_safe_oti(value@) {
                Err(e) => r == Err::<Self, TransmissionInformationError>(e),
                Ok((fields, blocks)) => r matches Ok(info) && info.inner == fields
                    && info.max_blocks == blocks && info.bytes@ == value@,
            },
    {
        if value.len() != TRANSMISSION_INFO_SIZE {
            return Err(TransmissionInformationError::InvalidSize);
        }
        let bytes = read_array_12(value, 0);
        assert(bytes@ =~= value@);
        let config = oti_deserialize(&bytes);
        if config.source_blocks == 0 {
            return Err(TransmissionInformationError::SourceBlocksZero);
        }
        if config.symbol_size == 0 {
            return Err(TransmissionInformationError::SymbolSizeZero);
        }
        if config.transfer_length == 0 {
            return Err(TransmissionInformationError::TransferLengthZero);
        }
        if config.symbol_size > MAX_MTU {
            return Err(TransmissionInformationError::SymbolSizeGreaterThanMTU);
        }
        if config.symbol_alignment != 8 {
            return Err(TransmissionInformationError::SymbolSizeNotAligned);
        }
        let kt = int_div_ceil(config.transfer_length, config.symbol_size as u64);
        let (kl, _, zl, zs) = partition(kt, config.source_blocks as u32);
        assert((kl as u64) * (config.symbol_size as u64) <= 0xffff_ffff * 0xffff) by (nonlinear_arith)
            requires
                kl <= 0xffff_ffff,
                config.symbol_size <= 0xffff,
        ;
        let block_length = (kl as u64) * (config.symbol_size as u64);
        let source_block_symbols = int_div_ceil(block_length, config.symbol_size as u64);
        if source_block_symbols <= MAX_SOURCE_SYMBOLS_PER_BLOCK {
            Ok(SafeObjectTransmissionInformation { inner: config, bytes, max_blocks: (zl + zs) as usize })
        } else {
            Err(TransmissionInformationError::TooManySourceSymbols)
        }
    }
}

} // verus!
