//! The thread channels that carry messages to the link and responses back.

use std::sync::mpsc::{Receiver, Sender};
use std::time::Duration;
use vstd::prelude::*;

verus! {

/// The sending half of a standard library channel.
#[verifier::external_type_specification]
#[verifier::external_body]
#[verifier::reject_recursive_types(T)]
pub struct ExSender<T>(Sender<T>);

/// The receiving half of a standard library channel.
#[verifier::external_type_specification]
#[verifier::external_body]
#[verifier::reject_recursive_types(T)]
pub struct ExReceiver<T>(Receiver<T>);

/// Relies on std::sync::mpsc::channel: makes a new, connected pair of halves.
pub assume_specification<T>[ std::sync::mpsc::channel::<T> ]() -> (Sender<T>, Receiver<T>);

/// Relies on std::sync::mpsc::Sender::send: hands `value` to the receiving
/// half; returns false when that half is already gone.
#[verifier::external_body]
pub(crate) fn send_on<T>(sender: &Sender<T>, value: T) -> (delivered: bool) {
    sender.send(value).is_ok()
}

/// Relies on std::sync::mpsc::Receiver::recv_timeout: waits at most `secs`
/// seconds for a value; `None` when none came or every sender is gone.
#[verifier::external_body]
pub(crate) fn receive_within<T>(receiver: &Receiver<T>, secs: u64) -> (r: Option<T>) {
    receiver.recv_timeout(Duration::from_secs(secs)).ok()
}

} // verus!
