//! The graceful-shutdown signal: a single-producer channel created at build
//! time; a handle to it can be cloned wherever a trigger capability is
//! needed, and the serving loop consumes the receiving end once.

use vstd::prelude::*;

verus! {

/// Declares tokio's bounded mpsc sender so it can stand in fields and
/// signatures; its values are opaque here.
#[verifier::external_type_specification]
#[verifier::external_body]
#[verifier::reject_recursive_types(T)]
pub struct ExSender<T>(tokio::sync::mpsc::Sender<T>);

/// Declares tokio's bounded mpsc receiver likewise.
#[verifier::external_type_specification]
#[verifier::external_body]
#[verifier::reject_recursive_types(T)]
pub struct ExReceiver<T>(tokio::sync::mpsc::Receiver<T>);

/// Relies on tokio::sync::mpsc::channel: creates a bounded channel. The
/// capacity handed in is 1, which is nonzero, so the call cannot panic.
#[verifier::external_body]
fn signal_channel() -> (tokio::sync::mpsc::Sender<()>, tokio::sync::mpsc::Receiver<()>) {
    tokio::sync::mpsc::channel(1)
}

/// Relies on Clone for tokio::sync::mpsc::Sender: another sending handle
/// to the same channel.
#[verifier::external_body]
fn clone_sender(s: &tokio::sync::mpsc::Sender<()>) -> tokio::sync::mpsc::Sender<()> {
    s.clone()
}

/// Relies on tokio::sync::mpsc::Sender::try_send: queues the signal unless
/// the channel is full or closed; reports whether it was taken.
#[verifier::external_body]
fn try_signal(s: &tokio::sync::mpsc::Sender<()>) -> bool {
    s.try_send(()).is_ok()
}

/// A capability to trigger graceful shutdown.
pub struct ShutdownHandle {
    sender: tokio::sync::mpsc::Sender<()>,
}

/// The receiving end the serving loop waits on.
pub struct ShutdownReceiver {
    pub receiver: tokio::sync::mpsc::Receiver<()>,
}

impl ShutdownHandle {
    /// A fresh signal channel: the trigger handle and the receiving end.
    pub fn fresh() -> (ShutdownHandle, ShutdownReceiver) {
        let (sender, receiver) = signal_channel();
        (ShutdownHandle { sender }, ShutdownReceiver { receiver })
    }

    /// Another trigger capability for the same signal.
    pub fn clone_handle(&self) -> ShutdownHandle {
        ShutdownHandle { sender: clone_sender(&self.sender) }
    }

    /// Triggers graceful shutdown; `false` if the signal could not be
    /// delivered (already triggered and still pending, or no listener).
    pub fn shutdown(&self) -> bool {
        try_signal(&self.sender)
    }
}

} // verus!
