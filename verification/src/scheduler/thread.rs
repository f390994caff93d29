//! One activity: what it sends for what its program yields, and when it may go on.
//!
//! An activity is `Running`, or it waits: for the binding of a variable that it
//! asked to read, or, as a declared lazy producer, for the first demand of its
//! variable. While it waits its program is not stepped.

use vstd::prelude::*;
use crate::compiler::value::{ThreadValue, VariableId};
use crate::scheduler::operation::{Operation, ThreadId, Value};

verus! {

/// Where an activity stands.
#[derive(Debug, PartialEq, Eq)]
pub enum ThreadState {
    /// The program may be stepped.
    Running,
    /// The read request that was sent; the activity waits for the binding it asked for.
    Waiting(Operation),
    /// The activity has declared itself the lazy producer of the variable and waits for a demand.
    WaitNeeded(VariableId),
}

/// What an activity does after a step of its program.
#[derive(Debug, PartialEq, Eq)]
pub struct Outgoing {
    /// The message for the coordinator.
    pub message: Operation,
    /// Whether the activity ends after sending it.
    pub exit: bool,
}

/// An activity as mathematical values.
pub struct ThreadView {
    pub thread_id: ThreadId,
    pub state: ThreadState,
    /// What is left of the program: the operations that the list stepper will yield, in order.
    pub em: Seq<Operation>,
}

/// The state of a running activity after its program yielded `yielded` (`None`: exhausted).
pub open spec fn state_after_yield(yielded: Option<Operation>) -> ThreadState {
    match yielded {
        Some(Operation::SynchVar(t, Value::Unbound(id))) => ThreadState::Waiting(
            Operation::SynchVar(t, Value::Unbound(id)),
        ),
        Some(Operation::WaitNeeded(_, id)) => ThreadState::WaitNeeded(id),
        _ => ThreadState::Running,
    }
}

/// What activity `thread_id` sends after its program yielded `yielded` (`None`: exhausted):
/// the operation as it is, but for the end of the program, which is reported under the
/// activity's own id.
pub open spec fn outgoing_after_yield(thread_id: ThreadId, yielded: Option<Operation>) -> Outgoing {
    match yielded {
        Some(Operation::ThreadTerminate(_)) | None => Outgoing {
            message: Operation::ThreadTerminate(thread_id),
            exit: true,
        },
        Some(op) => Outgoing { message: op, exit: false },
    }
}

/// Whether the notification ends the wait.
///
/// A reader is woken by the binding of the variable that it asked for. A lazy producer is
/// woken by any notification that speaks of its variable: the demand reaches it as the
/// reader's own request, which carries no payload.
pub open spec fn wakes(state: ThreadState, received: Operation) -> bool {
    match (state, received) {
        (
            ThreadState::Waiting(Operation::SynchVar(_, Value::Unbound(id))),
            Operation::SynchVar(_, Value::Bound(bound_id, _)),
        ) => id == bound_id,
        (ThreadState::WaitNeeded(id), Operation::SynchVar(_, value)) => value.id() == id,
        _ => false,
    }
}

/// The state after a notification.
pub open spec fn state_after_delivery(state: ThreadState, received: Option<Operation>) -> ThreadState {
    match received {
        Some(op) => if wakes(state, op) {
            ThreadState::Running
        } else {
            state
        },
        None => state,
    }
}

/// One activity with a program that is a list of operations.
pub struct Thread {
    thread_id: ThreadId,
    state: ThreadState,
    em: Vec<Operation>,
}

impl View for Thread {
    type V = ThreadView;

    closed spec fn view(&self) -> ThreadView {
        ThreadView { thread_id: self.thread_id, state: self.state, em: self.em@ }
    }
}

impl Thread {
    /// A running activity under the given id, at the start of its program.
    pub fn new(thread_id: ThreadId, em: Vec<Operation>) -> (thread: Thread)
        ensures
            thread@ == (ThreadView { thread_id, state: ThreadState::Running, em: em@ }),
    {
        Thread { thread_id, state: ThreadState::Running, em }
    }

    /// The activity's id.
    pub fn thread_id(&self) -> (id: ThreadId)
        ensures
            id == self@.thread_id,
    {
        self.thread_id
    }

    /// Whether the program may be stepped.
    pub fn is_running(&self) -> (b: bool)
        ensures
            b == (self@.state is Running),
    {
        match self.state {
            ThreadState::Running => true,
            _ => false,
        }
    }

    /// The variable for whose demand the activity waits as its lazy producer.
    pub fn lazy_variable(&self) -> (id: Option<VariableId>)
        ensures
            id == (match self@.state {
                ThreadState::WaitNeeded(id) => Some(id),
                _ => None,
            }),
    {
        match self.state {
            ThreadState::WaitNeeded(id) => Some(id),
            _ => None,
        }
    }

    /// The variable for whose binding the activity waits as a reader.
    pub fn awaited_variable(&self) -> (id: Option<VariableId>)
        ensures
            id == (match self@.state {
                ThreadState::Waiting(Operation::SynchVar(_, Value::Unbound(id))) => Some(id),
                _ => None,
            }),
    {
        match &self.state {
            ThreadState::Waiting(Operation::SynchVar(_, Value::Unbound(id))) => Some(*id),
            _ => None,
        }
    }

    /// What a value that the program's machine yielded means to the coordinator: the
    /// activity's announcement of the variable that the value stands for. A value that
    /// belongs to no variable is the end of the program.
    pub fn announce(&self, value: ThreadValue) -> (yielded: Option<Operation>)
        ensures
            yielded == (match Value::spec_from_thread_value(value) {
                Some(cell) => Some(Operation::SynchVar(self@.thread_id, cell)),
                None => None,
            }),
    {
        match Value::from_thread_value(value) {
            Some(cell) => Some(Operation::SynchVar(self.thread_id, cell)),
            None => None,
        }
    }

    /// Steps the list program: yields its first operation and keeps the rest, or reports
    /// that nothing is left.
    pub fn werbolg_exec(&mut self) -> (yielded: Option<Operation>)
        ensures
            final(self)@.thread_id == old(self)@.thread_id,
            final(self)@.state == old(self)@.state,
            old(self)@.em.len() == 0 ==> yielded is None && final(self)@.em == old(self)@.em,
            old(self)@.em.len() > 0 ==> yielded == Some(old(self)@.em[0]) && final(self)@.em
                == old(self)@.em.drop_first(),
    {
        if self.em.len() > 0 {
            let op = self.em.remove(0);
            proof {
                assert(self.em@ == old(self).em@.drop_first());
            }
            Some(op)
        } else {
            None
        }
    }

    /// Takes what a step of the program yielded (`None`: the program is exhausted, or its
    /// stepper failed) and says what is sent to the coordinator.
    ///
    /// A read request is sent and the activity waits for the binding. A binding announcement
    /// and a spawn request are sent and the activity runs on. A lazy declaration is sent and
    /// the activity waits for the demand. At the end of the program the activity reports its
    /// termination and exits.
    pub fn advance(&mut self, yielded: Option<Operation>) -> (out: Outgoing)
        requires
            old(self)@.state is Running,
        ensures
            out == outgoing_after_yield(old(self)@.thread_id, yielded),
            final(self)@ == (ThreadView { state: state_after_yield(yielded), ..old(self)@ }),
    {
        match yielded {
            Some(Operation::SynchVar(t, Value::Unbound(id))) => {
                self.state = ThreadState::Waiting(Operation::SynchVar(t, Value::Unbound(id)));
                Outgoing { message: Operation::SynchVar(t, Value::Unbound(id)), exit: false }
            },
            Some(Operation::WaitNeeded(t, id)) => {
                self.state = ThreadState::WaitNeeded(id);
                Outgoing { message: Operation::WaitNeeded(t, id), exit: false }
            },
            Some(Operation::ThreadTerminate(_)) | None => {
                self.state = ThreadState::Running;
                Outgoing { message: Operation::ThreadTerminate(self.thread_id), exit: true }
            },
            Some(op) => {
                self.state = ThreadState::Running;
                Outgoing { message: op, exit: false }
            },
        }
    }

    /// Takes what arrived on the inbound channel (`None`: the channel is closed) and says
    /// whether the activity ends.
    ///
    /// A notification that ends the wait makes the activity `Running`; any other is ignored.
    /// A closed channel means that the coordinator is gone, and the activity ends.
    pub fn deliver(&mut self, received: Option<Operation>) -> (exit: bool)
        ensures
            exit == (received is None),
            final(self)@ == (ThreadView {
                state: state_after_delivery(old(self)@.state, received),
                ..old(self)@
            }),
    {
        match received {
            Some(Operation::SynchVar(_, value)) => {
                let woken = match &self.state {
                    ThreadState::Waiting(Operation::SynchVar(_, Value::Unbound(id))) => {
                        value.is_bound() && value.id() == *id
                    },
                    ThreadState::WaitNeeded(id) => value.id() == *id,
                    _ => false,
                };
                if woken {
                    self.state = ThreadState::Running;
                }
                false
            },
            Some(_) => false,
            None => true,
        }
    }
}

} // verus!
