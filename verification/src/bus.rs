//! The typed publish/subscribe bus: lifecycle events exchanged by the planner,
//! agents, spawner and supervisor, carried by a Tokio broadcast channel.
use std::sync::Arc;

use tokio::sync::broadcast::{Receiver, Sender};
use vstd::prelude::*;

use crate::ids::{AgentId, RunId, TaskId};
use crate::types::{AgentOutput, ExecutionPlan, HatchError};

verus! {

/// Capacity of the bus of a run.
pub const RUN_BUS_CAPACITY: usize = 1024;

/// Events exchanged across planner, agents, spawner, and supervisor.
#[derive(Debug, Clone)]
pub enum HatchMessage {
    /// Planner produced a concrete execution plan.
    PlanReady(ExecutionPlan),
    /// An agent task has started executing.
    AgentStarted {
        /// Agent instance identifier.
        agent_id: AgentId,
        /// Task being executed.
        task_id: TaskId,
    },
    /// Non-terminal progress update from an agent.
    AgentProgress {
        /// Agent reporting progress.
        agent_id: AgentId,
        /// Human-readable progress line.
        message: String,
    },
    /// Agent finished successfully with output.
    AgentDone(AgentOutput),
    /// Agent failed with an error string.
    AgentFailed {
        /// Agent that failed.
        agent_id: AgentId,
        /// Error description.
        error: String,
    },
    /// Entire run finished with merged outputs.
    RunComplete {
        /// Run identifier.
        run_id: RunId,
        /// Collected successful outputs.
        outputs: Vec<AgentOutput>,
    },
}

#[verifier::external_type_specification]
#[verifier::external_body]
#[verifier::reject_recursive_types(T)]
pub struct ExBroadcastSender<T>(Sender<T>);

#[verifier::external_type_specification]
#[verifier::external_body]
#[verifier::reject_recursive_types(T)]
pub struct ExBroadcastReceiver<T>(Receiver<T>);

/// `tokio::sync::broadcast::channel`: a channel that keeps up to `capacity` unread
/// messages per receiver (rounded up to a power of two). The channel's first
/// receiver is dropped. Tokio panics when `capacity` is zero or above `usize::MAX / 2`.
#[verifier::external_body]
fn open_channel(capacity: usize) -> Sender<HatchMessage>
    requires
        0 < capacity <= usize::MAX / 2,
{
    tokio::sync::broadcast::channel(capacity).0
}

/// `broadcast::Sender::send`: hands the message to every active receiver and returns
/// how many there were, or fails when there is none. Whether a receiver is active
/// depends on the other tasks of the program, so that is left unsaid; the failure's
/// display text is `channel closed`.
#[verifier::external_body]
fn send_message(sender: &Sender<HatchMessage>, msg: HatchMessage) -> (r: Result<usize, String>)
    ensures
        r matches Ok(n) ==> n >= 1,
        r matches Err(e) ==> e@ == "channel closed"@,
{
    match sender.send(msg) {
        Ok(n) => Ok(n),
        Err(e) => Err(e.to_string()),
    }
}

/// `broadcast::Sender::subscribe`: a receiver of the messages sent after this call.
#[verifier::external_body]
fn new_receiver(sender: &Sender<HatchMessage>) -> Receiver<HatchMessage> {
    sender.subscribe()
}

/// In-memory publish/subscribe bus for `HatchMessage` events.
#[derive(Clone)]
pub struct MessageBus {
    sender: Arc<Sender<HatchMessage>>,
    capacity: usize,
}

impl MessageBus {
    /// The capacity the bus was created with.
    pub closed spec fn spec_capacity(&self) -> usize {
        self.capacity
    }

    /// Creates a bus with the given channel capacity (at least one message).
    pub fn new(capacity: usize) -> (bus: Self)
        requires
            capacity <= usize::MAX / 2,
        ensures
            bus.spec_capacity() == if capacity == 0 {
                1
            } else {
                capacity
            },
    {
        let cap = if capacity == 0 {
            1
        } else {
            capacity
        };
        let sender = open_channel(cap);
        MessageBus { sender: Arc::new(sender), capacity: cap }
    }

    /// Publishes a message to all active subscribers; fails with a bus error when
    /// no subscriber is listening. Whether one is listening depends on the other
    /// tasks of the program (a receiver may be dropped at any time), so when it
    /// succeeds is left unsaid; its failure is stated.
    pub fn publish(&self, msg: HatchMessage) -> (r: Result<(), HatchError>)
        ensures
            r matches Err(e) ==> e matches HatchError::Bus(m) && m@ == "channel closed"@,
    {
        match send_message(&self.sender, msg) {
            Ok(_) => Ok(()),
            Err(e) => Err(HatchError::Bus(e)),
        }
    }

    /// Subscribes to subsequent messages (missed if lag exceeds capacity). The
    /// receiver is an opaque `tokio` value made fresh by each call, so what it will
    /// deliver is left unsaid.
    pub fn subscribe(&self) -> Receiver<HatchMessage> {
        new_receiver(&self.sender)
    }

    /// Returns the configured capacity hint.
    pub fn capacity(&self) -> (r: usize)
        ensures
            r == self.spec_capacity(),
    {
        self.capacity
    }
}

} // verus!
