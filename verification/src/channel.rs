//! The delivery channels of the async runtime, as far as the broker's rules
//! touch them: they hand a frame to a channel without waiting, and they fire
//! the stop signal of a listener.

use vstd::prelude::*;

verus! {

/// `tokio::sync::mpsc::Sender`, carried through as it is.
#[verifier::external_type_specification]
#[verifier::external_body]
#[verifier::reject_recursive_types(T)]
pub struct ExSender<T>(tokio::sync::mpsc::Sender<T>);

/// `tokio::sync::oneshot::Sender`, carried through as it is.
#[verifier::external_type_specification]
#[verifier::external_body]
#[verifier::reject_recursive_types(T)]
pub struct ExStopSender<T>(tokio::sync::oneshot::Sender<T>);

/// `bytes::Bytes`, the item type of the delivery channels.
#[verifier::external_type_specification]
#[verifier::external_body]
pub struct ExBytes(bytes::Bytes);

/// The sending half of a session's bounded, ordered outbound channel. One
/// writer task consumes the other half.
pub type Tx = tokio::sync::mpsc::Sender<bytes::Bytes>;

/// The sending half of a listener's one-shot stop signal.
pub type StopTx = tokio::sync::oneshot::Sender<()>;

/// Calls `Sender::try_send` with a copy of `frame`, which never waits.
///
/// Says whether the channel took the frame. It refuses when its buffer is
/// full or its receiver is gone, so nothing is promised of the answer.
#[verifier::external_body]
pub(crate) fn offer(tx: &Tx, frame: &[u8]) -> (accepted: bool) {
    tx.try_send(bytes::Bytes::copy_from_slice(frame)).is_ok()
}

/// Calls `oneshot::Sender::send` with the unit value.
///
/// Says whether a receiver was still there to hear it; nothing is promised
/// of the answer.
#[verifier::external_body]
pub(crate) fn signal(tx: StopTx) -> (heard: bool) {
    tx.send(()).is_ok()
}

} // verus!
