//! Transport: what goes on the wire, and how broadcast frames are split into
//! chunks and joined back.
use vstd::prelude::*;

pub mod encoding;

use crate::config::NetworkConfig;
use crate::encoding::message::{message_wire, parse_message, Message};
use crate::encoding::{EncodingError, Marshallable};
use crate::maintainer::{addresses_equal, same_address};
use crate::peer::SocketAddress;
use encoding::raptorq::decoder::{decode_step, RaptorQDecoder};
use encoding::raptorq::encoder::{spec_repair_packets, RaptorQEncoder, MAX_REPAIR_PACKETS_PER_BLOCK};

verus! {

/// A message to send and its recipients.
pub type MessageBeanOut = (Message, Vec<SocketAddress>);

/// A message received and its sender.
pub type MessageBeanIn = (Message, SocketAddress);

/// Largest UDP datagram handled.
pub const MAX_DATAGRAM_SIZE: usize = 65_507;

/// Fewest attempts made to send a datagram.
pub const MIN_RETRY_COUNT: u8 = 1;

/// The number of attempts made to send a datagram: the configured count,
/// but at least `MIN_RETRY_COUNT`.
pub fn send_retry_count(conf: &NetworkConfig) -> (r: u8)
    ensures
        r == if conf.udp_send_retry_count > MIN_RETRY_COUNT {
            conf.udp_send_retry_count
        } else {
            MIN_RETRY_COUNT
        },
{
    if conf.udp_send_retry_count > MIN_RETRY_COUNT {
        conf.udp_send_retry_count
    } else {
        MIN_RETRY_COUNT
    }
}

/// What follows an attempt to send a datagram.
#[derive(Debug, Clone, Copy, PartialEq, Eq)]
pub enum SendStep {
    /// The datagram went out.
    Sent,
    /// Wait for the retry interval, then try again.
    Retry,
    /// Give up and report the last error.
    Fail,
}

/// What follows attempt number `attempt` (from 1) out of `max_retry`, which
/// went out or failed as `sent` says: a failure is retried until the last
/// attempt.
pub fn after_attempt(attempt: u8, max_retry: u8, sent: bool) -> (r: SendStep)
    ensures
        sent ==> r == SendStep::Sent,
        !sent && attempt < max_retry ==> r == SendStep::Retry,
        !sent && attempt >= max_retry ==> r == SendStep::Fail,
{
    if sent {
        SendStep::Sent
    } else if attempt < max_retry {
        SendStep::Retry
    } else {
        SendStep::Fail
    }
}

/// Whether `remote` is in the blocklist.
pub fn is_blocked(blocklist: &[SocketAddress], remote: &SocketAddress) -> (r: bool)
    ensures
        r == exists|i: int| 0 <= i < blocklist@.len() && same_address(#[trigger] blocklist@[i], *remote),
{
    let mut i: usize = 0;
    while i < blocklist.len()
        invariant
            i <= blocklist@.len(),
            forall|j: int| 0 <= j < i ==> !same_address(#[trigger] blocklist@[j], *remote),
        decreases blocklist@.len() - i,
    {
        if addresses_equal(&blocklist[i], remote) {
            return true;
        }
        i = i + 1;
    }
    false
}

/// What the decoder hands on, as a received message: the message with its
/// sender, nothing, or the error.
pub open spec fn with_sender(d: Result<Option<Message>, EncodingError>, src: SocketAddress) -> Result<
    Option<MessageBeanIn>,
    EncodingError,
> {
    match d {
        Ok(Some(m)) => Ok(Some((m, src))),
        Ok(None) => Ok(None),
        Err(e) => Err(e),
    }
}

/// Turns a datagram received from `src` at `now` into the message to
/// handle, if any: the datagram is read as a message, which then goes
/// through the decoder (see `decode_step`).
pub fn receive_datagram(decoder: &mut RaptorQDecoder, data: &[u8], src: SocketAddress, now: u64) -> (r: Result<
    Option<MessageBeanIn>,
    EncodingError,
>)
    requires
        old(decoder).wf(),
    ensures
        final(decoder).wf(),
        match parse_message(data@) {
            Err(e) => {
                &&& r == Err::<Option<MessageBeanIn>, EncodingError>(e)
                &&& final(decoder).entries() == old(decoder).entries()
                &&& final(decoder).last_pruned() == old(decoder).last_pruned()
                &&& final(decoder).conf() == old(decoder).conf()
            },
            Ok((view, _)) => exists|m: Message, d: Result<Option<Message>, EncodingError>|
                {
                    &&& m@ == view
                    &&& decode_step(*old(decoder), *final(decoder), m, now, d)
                    &&& r == with_sender(d, src)
                },
        },
{
    let message = match Message::unmarshal_binary(data) {
        Ok((m, _)) => m,
        Err(e) => return Err(e),
    };
    match decoder.decode_at(message, now) {
        Ok(Some(decoded)) => Ok(Some((decoded, src))),
        Ok(None) => Ok(None),
        Err(e) => Err(e),
    }
}

/// The datagrams carrying `message`: the encoder's chunks (see
/// `RaptorQEncoder::encode`), each encoded. A broadcast frame must not be
/// empty.
pub fn outgoing_datagrams(encoder: &RaptorQEncoder, message: Message, repair_estimate: u32) -> (r: Result<
    Vec<Vec<u8>>,
    EncodingError,
>)
    requires
        message matches Message::Broadcast(_, p, _) ==> 0 < p.gossip_frame@.len() <= u32::MAX
            && spec_repair_packets(repair_estimate, encoder.conf().min_repair_packets_per_block)
            <= MAX_REPAIR_PACKETS_PER_BLOCK,
    ensures
        r matches Ok(d) && exists|chunks: Seq<Message>|
            {
                &&& encoder.encodes(message, repair_estimate, chunks)
                &&& d@.len() == chunks.len()
                &&& forall|k: int| 0 <= k < d@.len() ==> (#[trigger] d@[k])@ == message_wire(chunks[k]@)
            },
{
    let chunks = match encoder.encode(message, repair_estimate) {
        Ok(c) => c,
        Err(e) => return Err(e),
    };
    let mut d: Vec<Vec<u8>> = Vec::new();
    let mut k: usize = 0;
    while k < chunks.len()
        invariant
            k <= chunks@.len(),
            d@.len() == k,
            forall|t: int| 0 <= t < k ==> (#[trigger] d@[t])@ == message_wire(chunks@[t]@),
        decreases chunks@.len() - k,
    {
        let bytes = match chunks[k].bytes() {
            Ok(b) => b,
            Err(e) => return Err(e),
        };
        d.push(bytes);
        k = k + 1;
    }
    Ok(d)
}

} // verus!
