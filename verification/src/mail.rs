//! What another thread has sent.

use vstd::prelude::*;

verus! {

/// The receiving end of a channel between threads.
#[verifier::external_type_specification]
#[verifier::external_body]
#[verifier::reject_recursive_types(T)]
pub struct ExReceiver<T>(std::sync::mpsc::Receiver<T>);

/// What was found in a channel.
pub enum Arrival<T> {
    /// A message.
    Message(T),
    /// Nothing yet.
    Empty,
    /// Nothing, and nothing will come: the sender is gone.
    Disconnected,
}

/// `std::sync::mpsc::Receiver::try_recv`: takes the next message without waiting for one.
/// What it finds depends on the other thread, so nothing is stated of it.
#[verifier::external_body]
pub(crate) fn receive<T>(receiver: &std::sync::mpsc::Receiver<T>) -> Arrival<T> {
    match receiver.try_recv() {
        Ok(message) => Arrival::Message(message),
        Err(std::sync::mpsc::TryRecvError::Empty) => Arrival::Empty,
        Err(std::sync::mpsc::TryRecvError::Disconnected) => Arrival::Disconnected,
    }
}

} // verus!
