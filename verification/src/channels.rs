//! Trusted declarations for the outbound command channels.
//!
//! Endpoints are the sending halves of crossbeam channels; the receiving
//! halves live with the simulated nodes. Nothing can be promised about
//! whether a send lands — the other side may be gone — so the wrappers
//! state only the shape of the outcome and every caller says what holds
//! whatever came back.

use vstd::prelude::*;

verus! {

/// The sending half of a channel, as crossbeam defines it.
#[verifier::external_type_specification]
#[verifier::external_body]
#[verifier::reject_recursive_types(T)]
pub struct ExSender<T>(crossbeam::channel::Sender<T>);

/// What became of a non-blocking send.
#[derive(Clone, Copy, Debug, PartialEq, Eq, Structural)]
pub enum SendOutcome {
    Sent,
    Full,
    Disconnected,
}

/// Relies on crossbeam::channel::Sender::try_send: the message is either
/// delivered into the channel at once or handed back because the channel is
/// full or disconnected; the call never blocks.
#[verifier::external_body]
pub(crate) fn channel_try_send<T>(s: &crossbeam::channel::Sender<T>, msg: T) -> (r: SendOutcome) {
    match s.try_send(msg) {
        Ok(()) => SendOutcome::Sent,
        Err(crossbeam::channel::TrySendError::Full(_)) => SendOutcome::Full,
        Err(crossbeam::channel::TrySendError::Disconnected(_)) => SendOutcome::Disconnected,
    }
}

/// Relies on crossbeam::channel::Sender::clone: the clone feeds the same
/// channel as the original.
#[verifier::external_body]
pub(crate) fn clone_sender<T>(s: &crossbeam::channel::Sender<T>) -> (r: crossbeam::channel::Sender<
    T,
>) {
    s.clone()
}

} // verus!
