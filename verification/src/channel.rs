//! The single slot through which a finished search hands its plan to the
//! planner that asked for it.

use vstd::prelude::*;
use crate::plan::Plan;

verus! {

/// `crossbeam_channel::Receiver`, the receiving end of a channel. Nothing is
/// known of what it holds.
#[verifier::external_type_specification]
#[verifier::external_body]
#[verifier::reject_recursive_types(T)]
pub struct ExReceiver<T>(crossbeam_channel::Receiver<T>);

/// `crossbeam_channel::Sender`, the sending end of a channel. Nothing is
/// known of what it holds.
#[verifier::external_type_specification]
#[verifier::external_body]
#[verifier::reject_recursive_types(T)]
pub struct ExSender<T>(crossbeam_channel::Sender<T>);

/// What a look into the slot finds.
#[derive(Debug)]
pub enum Polled {
    /// The search is over: its plan, or nothing if it found none.
    Ready(Option<Plan>),
    /// The search is still running.
    Empty,
    /// The search has gone without leaving a result.
    Disconnected,
}

/// The end of the slot from which the planner takes the result.
#[derive(Debug)]
pub struct PlanReceiver {
    receiver: crossbeam_channel::Receiver<Option<Plan>>,
}

/// The end of the slot into which the search puts its result.
#[derive(Debug)]
pub struct PlanSender {
    sender: crossbeam_channel::Sender<Option<Plan>>,
}

/// Makes a slot for `capacity` results.
///
/// Calls `crossbeam_channel::bounded` and wraps the two ends it returns.
/// Nothing is claimed of them. A slot without capacity is left out: into
/// such a slot a result can only be put while someone waits to take it.
#[verifier::external_body]
pub(crate) fn plan_channel(capacity: usize) -> (ends: (PlanSender, PlanReceiver))
    requires
        capacity >= 1,
{
    let (sender, receiver) = crossbeam_channel::bounded(capacity);
    (PlanSender { sender }, PlanReceiver { receiver })
}

impl PlanReceiver {
    /// Looks into the slot without waiting.
    ///
    /// Calls `crossbeam_channel::Receiver::try_recv` and tells its three
    /// answers apart. Which of them comes depends on how far the search has
    /// got, so nothing is claimed of the result.
    #[verifier::external_body]
    pub(crate) fn try_recv(&self) -> (polled: Polled) {
        match self.receiver.try_recv() {
            Ok(plan) => Polled::Ready(plan),
            Err(crossbeam_channel::TryRecvError::Empty) => Polled::Empty,
            Err(crossbeam_channel::TryRecvError::Disconnected) => Polled::Disconnected,
        }
    }
}

impl PlanSender {
    /// Puts a result into the slot, and uses the sending end up.
    ///
    /// Calls `crossbeam_channel::Sender::send`, which fails if the receiving
    /// end is gone, and then hands the message back in its error. Whether
    /// it fails depends on the receiver. The call waits only while the
    /// channel is full, which a slot is not before the one message that its
    /// sending end can put in.
    #[verifier::external_body]
    pub(crate) fn send(self, plan: Option<Plan>) -> (sent: Result<(), Option<Plan>>)
        ensures
            sent matches Err(back) ==> back == plan,
    {
        match self.sender.send(plan) {
            Ok(()) => Ok(()),
            Err(crossbeam_channel::SendError(back)) => Err(back),
        }
    }
}

} // verus!
