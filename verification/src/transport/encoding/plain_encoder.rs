//! The plain transport: messages go on the wire as they are.
use vstd::prelude::*;

use super::Configurable;
use crate::encoding::message::Message;
use crate::encoding::EncodingError;

verus! {

/// Sends and receives messages unchanged.
pub struct PlainEncoder {}

impl Configurable for PlainEncoder {
    type TConf = ();

    fn default_configuration() -> Self::TConf {
    }

    fn configure(_conf: &Self::TConf) -> Self {
        PlainEncoder {}
    }
}

impl PlainEncoder {
    /// A message is sent as one chunk: itself.
    pub fn encode(&self, msg: Message) -> (r: Result<Vec<Message>, EncodingError>)
        ensures
            r matches Ok(v) && v@ == seq![msg],
    {
        let mut v: Vec<Message> = Vec::new();
        v.push(msg);
        Ok(v)
    }

    /// A chunk received is the message itself.
    pub fn decode(&mut self, chunk: Message) -> (r: Result<Option<Message>, EncodingError>)
        ensures
            r == Ok::<Option<Message>, EncodingError>(Some(chunk)),
    {
        Ok(Some(chunk))
    }
}

} // verus!
