//! Outbound messages: a command identifier, its payload and the channel on
//! which the device's response will be delivered.

use crate::channel::send_on;
use std::sync::mpsc::{Receiver, Sender};
use vstd::prelude::*;

verus! {

/// Size in bytes of the microcontroller's serial receive buffer.
pub const ARDUINO_BUFFER_SIZE: usize = 64;

/// Bytes of header in front of each outbound payload: the command and the
/// payload length, two bytes each.
pub const HEADER_SIZE: usize = 4;

/// The largest payload whose frame still fits the device's buffer.
pub const MAX_PAYLOAD: usize = 60;

/// Why a message could not be built: its frame would not fit the device's
/// receive buffer.
#[derive(Debug, PartialEq, Eq)]
pub struct ConstructionError {
    /// Length of the payload that was asked for.
    pub payload_len: usize,
}

/// Why a command could not be submitted to the link.
#[derive(Debug, PartialEq, Eq)]
pub enum SubmitError {
    /// The message would not fit the device's receive buffer.
    TooLarge(ConstructionError),
    /// The link that should transmit the message is gone.
    LinkClosed,
}

/// A command for the microcontroller, waiting to be transmitted.
pub struct Message {
    command: u16,
    payload: Vec<u8>,
    /// The device's response (possibly empty) is sent here, and nothing else.
    sender: Sender<Vec<u8>>,
}

impl Message {
    #[verifier::type_invariant]
    spec fn fits(&self) -> bool {
        self.payload@.len() <= MAX_PAYLOAD
    }

    /// The command identifier.
    pub closed spec fn command(&self) -> u16 {
        self.command
    }

    /// The payload bytes.
    pub closed spec fn payload(&self) -> Seq<u8> {
        self.payload@
    }

    /// The channel on which the response is to be delivered.
    pub closed spec fn channel(&self) -> Sender<Vec<u8>> {
        self.sender
    }

    /// Length of the message on the wire: header and payload.
    pub open spec fn framed_len(&self) -> nat {
        self.payload().len() + HEADER_SIZE as nat
    }

    /// Builds a message from a command and its payload, together with the
    /// receiving end on which the device's response will arrive. Fails when
    /// the frame (four header bytes and the payload) would not fit the
    /// device's receive buffer.
    pub fn new(command: u16, payload: Vec<u8>) -> (r: Result<(Message, Receiver<Vec<u8>>), ConstructionError>)
        ensures
            r is Ok <==> payload@.len() + HEADER_SIZE <= ARDUINO_BUFFER_SIZE,
            r matches Ok((m, _)) ==> m.command() == command && m.payload() == payload@
                && m.framed_len() == payload@.len() + HEADER_SIZE,
            r matches Err(e) ==> e.payload_len == payload@.len(),
    {
        if payload.len() > MAX_PAYLOAD {
            return Err(ConstructionError { payload_len: payload.len() });
        }
        let (sender, receiver) = std::sync::mpsc::channel();
        Ok((Message { command, payload, sender }, receiver))
    }

    /// Message size on the wire, header included.
    pub fn len(&self) -> (r: usize)
        ensures
            r == self.framed_len(),
            r <= ARDUINO_BUFFER_SIZE,
    {
        proof {
            use_type_invariant(self);
        }
        self.payload.len() + HEADER_SIZE
    }

    /// Takes the message apart into command, payload and response channel.
    pub fn destructure(self) -> (r: (u16, Vec<u8>, Sender<Vec<u8>>))
        ensures
            r.0 == self.command(),
            r.1@ == self.payload(),
            r.2 == self.channel(),
            r.1@.len() <= MAX_PAYLOAD,
    {
        proof {
            use_type_invariant(&self);
        }
        let Message { command, payload, sender } = self;
        (command, payload, sender)
    }
}

/// Builds a message and hands it to the link through `link`. Returns the
/// receiving end of the message's response channel.
pub fn submit(link: &Sender<Message>, command: u16, payload: Vec<u8>) -> (r: Result<Receiver<Vec<u8>>, SubmitError>)
    ensures
        r matches Err(SubmitError::TooLarge(e)) <==> payload@.len() + HEADER_SIZE > ARDUINO_BUFFER_SIZE,
        r matches Err(SubmitError::TooLarge(e)) ==> e.payload_len == payload@.len(),
{
    match Message::new(command, payload) {
        Ok((message, receiver)) => {
            if send_on(link, message) {
                Ok(receiver)
            } else {
                Err(SubmitError::LinkClosed)
            }
        },
        Err(e) => Err(SubmitError::TooLarge(e)),
    }
}

} // verus!
