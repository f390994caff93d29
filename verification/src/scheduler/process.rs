//! The coordinator: sole owner of the binding table and of every wait-list.
//!
//! The coordinator never waits on program logic. It takes one message at a
//! time, updates its tables and answers with the actions that its caller is to
//! perform: deliver a notification, start an activity, close a route, stop.

use vstd::prelude::*;
use crate::compiler::value::VariableId;
use crate::scheduler::operation::{Operation, Payload, ProcessId, ThreadId, Value};
use crate::scheduler::tables::{
    binding_table, binding_table_get, binding_table_insert, binding_table_new, holds_nothing,
    id_set, id_set_contains, id_set_insert, id_set_is_empty, id_set_new, id_set_remove,
    id_table, id_table_get, id_table_insert, id_table_new, id_table_remove, reader_table,
    reader_table_get, reader_table_insert, reader_table_new, reader_table_remove, Binding,
    IdMap, IdSet,
};

verus! {

/// What the coordinator asks of its caller.
#[derive(Debug, PartialEq, Eq)]
pub enum Action {
    /// Deliver the message to the activity.
    Notify(ThreadId, Operation),
    /// Open a route to a new activity with this id and let it run the program.
    Spawn(ThreadId, Vec<Operation>),
    /// Drop the route to the activity: it has terminated.
    Close(ThreadId),
    /// No activity is left: stop.
    Halt,
}

/// A fault of the whole run.
#[derive(Clone, Copy, Debug, PartialEq, Eq, Structural)]
pub enum SchedulerError {
    /// A second binding of a variable that is bound already.
    DuplicateBind(VariableId),
    /// Every thread id has been given out.
    ThreadIdsExhausted,
}

/// The coordinator's tables as mathematical values.
#[verifier::ext_equal]
pub struct ProcessView {
    /// The id that the next activity gets.
    pub next_thread_id: ThreadId,
    /// The activities that can be reached.
    pub routes: Set<ThreadId>,
    /// The permanent bindings.
    pub bound: Map<VariableId, Binding>,
    /// For each unbound variable that someone waits for, the waiting activities in arrival order.
    pub pending_readers: Map<VariableId, Seq<ThreadId>>,
    /// For each variable with a declared lazy producer that has not been demanded yet, the producer.
    pub lazy_producers: Map<VariableId, ThreadId>,
    /// The program of the first activity, until it is started.
    pub em: Option<Vec<Operation>>,
}

/// The tables after a message, and what the caller is to do.
#[verifier::ext_equal]
pub struct Step {
    pub state: ProcessView,
    pub actions: Seq<Action>,
}

/// The notification, if its addressee can be reached; nothing otherwise.
pub open spec fn notify_if_live(routes: Set<ThreadId>, to: ThreadId, op: Operation) -> Seq<Action> {
    if routes.contains(to) {
        seq![Action::Notify(to, op)]
    } else {
        Seq::empty()
    }
}

/// One notification of the binding for each reader that can be reached, in the readers' order.
pub open spec fn notify_readers(
    routes: Set<ThreadId>,
    readers: Seq<ThreadId>,
    binder: ThreadId,
    value: Value,
) -> Seq<Action>
    decreases readers.len(),
{
    if readers.len() == 0 {
        Seq::empty()
    } else {
        notify_readers(routes, readers.drop_last(), binder, value) + notify_if_live(
            routes,
            readers.last(),
            Operation::SynchVar(binder, value),
        )
    }
}

impl ProcessView {
    /// The tables of a coordinator that has not started yet and will give out thread ids
    /// from `first` on.
    pub open spec fn initial(first: ThreadId, em: Vec<Operation>) -> ProcessView {
        ProcessView {
            next_thread_id: first,
            routes: Set::empty(),
            bound: Map::empty(),
            pending_readers: Map::empty(),
            lazy_producers: Map::empty(),
            em: Some(em),
        }
    }

    /// Ids of reachable activities have been given out already, nobody waits for a
    /// bound variable, and no wait-list is empty.
    pub open spec fn wf(self) -> bool {
        &&& self.routes.finite()
        &&& forall|t: ThreadId| self.routes.contains(t) ==> t < self.next_thread_id
        &&& forall|id: VariableId| #[trigger]
            self.pending_readers.contains_key(id) ==> !self.bound.contains_key(id)
                && self.pending_readers[id].len() > 0
    }

    /// The activities that wait for the variable, in arrival order.
    pub open spec fn readers_of(self, id: VariableId) -> Seq<ThreadId> {
        if self.pending_readers.contains_key(id) {
            self.pending_readers[id]
        } else {
            Seq::empty()
        }
    }

    /// The notification that tells of the binding of a bound variable.
    pub open spec fn announcement(self, id: VariableId) -> Operation {
        Operation::SynchVar(self.bound[id].binder, Value::Bound(id, self.bound[id].payload))
    }

    /// Activity `t` asks to read variable `id`.
    pub open spec fn read(self, t: ThreadId, id: VariableId) -> Step {
        let answer = if self.bound.contains_key(id) {
            notify_if_live(self.routes, t, self.announcement(id))
        } else {
            Seq::empty()
        };
        let demand = if self.lazy_producers.contains_key(id) {
            notify_if_live(
                self.routes,
                self.lazy_producers[id],
                Operation::SynchVar(t, Value::Unbound(id)),
            )
        } else {
            Seq::empty()
        };
        Step {
            state: ProcessView {
                pending_readers: if self.bound.contains_key(id) {
                    self.pending_readers
                } else {
                    self.pending_readers.insert(id, self.readers_of(id).push(t))
                },
                lazy_producers: self.lazy_producers.remove(id),
                ..self
            },
            actions: answer + demand,
        }
    }

    /// Activity `t` announces that it has bound variable `id` to `payload`.
    pub open spec fn bind(self, t: ThreadId, id: VariableId, payload: Payload) -> Result<
        Step,
        SchedulerError,
    > {
        if self.bound.contains_key(id) {
            Err(SchedulerError::DuplicateBind(id))
        } else {
            Ok(
                Step {
                    state: ProcessView {
                        bound: self.bound.insert(id, Binding { binder: t, payload }),
                        pending_readers: self.pending_readers.remove(id),
                        ..self
                    },
                    actions: notify_readers(
                        self.routes,
                        self.readers_of(id),
                        t,
                        Value::Bound(id, payload),
                    ),
                },
            )
        }
    }

    /// A new activity is asked for, to run `program`.
    pub open spec fn spawn(self, program: Vec<Operation>) -> Result<Step, SchedulerError> {
        if self.next_thread_id == u64::MAX {
            Err(SchedulerError::ThreadIdsExhausted)
        } else {
            Ok(
                Step {
                    state: ProcessView {
                        next_thread_id: (self.next_thread_id + 1) as ThreadId,
                        routes: self.routes.insert(self.next_thread_id),
                        ..self
                    },
                    actions: seq![Action::Spawn(self.next_thread_id, program)],
                },
            )
        }
    }

    /// Activity `t` declares itself the lazy producer of variable `id`.
    pub open spec fn wait_needed(self, t: ThreadId, id: VariableId) -> Step {
        Step {
            state: ProcessView {
                lazy_producers: if self.lazy_producers.contains_key(id) {
                    self.lazy_producers
                } else {
                    self.lazy_producers.insert(id, t)
                },
                ..self
            },
            actions: Seq::empty(),
        }
    }

    /// Whether no activity can be reached.
    pub open spec fn finished(self) -> bool {
        holds_nothing(self.routes)
    }

    /// Activity `t` has terminated.
    pub open spec fn terminate(self, t: ThreadId) -> Step {
        let state = ProcessView { routes: self.routes.remove(t), ..self };
        let close = if self.routes.contains(t) {
            seq![Action::Close(t)]
        } else {
            Seq::empty()
        };
        let halt = if state.finished() {
            seq![Action::Halt]
        } else {
            Seq::empty()
        };
        Step { state, actions: close + halt }
    }

    /// The first activity is started on the coordinator's own program. A second start does nothing.
    pub open spec fn start(self) -> Result<Step, SchedulerError> {
        match self.em {
            Some(program) => match self.spawn(program) {
                Ok(step) => Ok(Step { state: ProcessView { em: None, ..step.state }, ..step }),
                Err(e) => Err(e),
            },
            None => Ok(Step { state: self, actions: Seq::empty() }),
        }
    }

    /// One message from an activity.
    pub open spec fn handle(self, op: Operation) -> Result<Step, SchedulerError> {
        match op {
            Operation::SynchVar(t, Value::Unbound(id)) => Ok(self.read(t, id)),
            Operation::SynchVar(t, Value::Bound(id, payload)) => self.bind(t, id, payload),
            Operation::ThreadSpawn(_, program) => self.spawn(program),
            Operation::WaitNeeded(t, id) => Ok(self.wait_needed(t, id)),
            Operation::ThreadTerminate(t) => Ok(self.terminate(t)),
        }
    }

    /// One turn of the coordinator: a message, or the news that the inbound channel is closed.
    pub open spec fn step(self, received: Option<Operation>) -> Result<Step, SchedulerError> {
        match received {
            Some(op) => self.handle(op),
            None => Ok(Step { state: self, actions: seq![Action::Halt] }),
        }
    }
}

/// The coordinator's work on a whole sequence of messages, in their order: the tables at
/// the end and every action on the way, or the first fault.
pub open spec fn run(s: ProcessView, ops: Seq<Operation>) -> Result<Step, SchedulerError>
    decreases ops.len(),
{
    if ops.len() == 0 {
        Ok(Step { state: s, actions: Seq::empty() })
    } else {
        match s.handle(ops[0]) {
            Err(e) => Err(e),
            Ok(first) => match run(first.state, ops.drop_first()) {
                Err(e) => Err(e),
                Ok(rest) => Ok(Step { state: rest.state, actions: first.actions + rest.actions }),
            },
        }
    }
}

/// Every message leaves well-formed tables well-formed.
pub proof fn lemma_handle_preserves_wf(s: ProcessView, op: Operation)
    requires
        s.wf(),
    ensures
        s.handle(op) is Ok ==> s.handle(op)->Ok_0.state.wf(),
{
}

/// The coordinator of one running program.
pub struct Process {
    process_id: ProcessId,
    next_thread_id: ThreadId,
    routes: IdSet,
    wait_needed_threads: IdMap<u64>,
    waiting_threads: IdMap<Vec<u64>>,
    bound_variables: IdMap<Binding>,
    em: Option<Vec<Operation>>,
}

impl View for Process {
    type V = ProcessView;

    closed spec fn view(&self) -> ProcessView {
        ProcessView {
            next_thread_id: self.next_thread_id,
            routes: id_set(self.routes),
            bound: binding_table(self.bound_variables),
            pending_readers: reader_table(self.waiting_threads),
            lazy_producers: id_table(self.wait_needed_threads),
            em: self.em,
        }
    }
}

impl Process {
    pub closed spec fn spec_process_id(&self) -> ProcessId {
        self.process_id
    }

    /// A coordinator with empty tables that will run `em` as its first activity. Its
    /// activities get the thread ids from 0 on.
    pub fn new(process_id: ProcessId, em: Vec<Operation>) -> (p: Process)
        ensures
            p@ == ProcessView::initial(0, em),
            p@.wf(),
            p.spec_process_id() == process_id,
    {
        Self::with_thread_ids_from(process_id, 0, em)
    }

    /// A coordinator with empty tables that will run `em` as its first activity. Its
    /// activities get the thread ids from `first` on, for a program whose coordinators
    /// share one sequence of thread ids.
    pub fn with_thread_ids_from(process_id: ProcessId, first: ThreadId, em: Vec<Operation>) -> (p:
        Process)
        ensures
            p@ == ProcessView::initial(first, em),
            p@.wf(),
            p.spec_process_id() == process_id,
    {
        Process {
            process_id,
            next_thread_id: first,
            routes: id_set_new(),
            wait_needed_threads: id_table_new(),
            waiting_threads: reader_table_new(),
            bound_variables: binding_table_new(),
            em: Some(em),
        }
    }

    /// The id that the coordinator was made with.
    #[verifier::when_used_as_spec(spec_process_id)]
    pub fn process_id(&self) -> (id: ProcessId)
        ensures
            id == self.spec_process_id(),
    {
        self.process_id
    }

    fn read_request(&mut self, t: ThreadId, id: VariableId) -> (actions: Vec<Action>)
        ensures
            actions@ == old(self)@.read(t, id).actions,
            final(self)@ == old(self)@.read(t, id).state,
    {
        let mut actions: Vec<Action> = Vec::new();
        match binding_table_get(&self.bound_variables, id) {
            Some(binding) => {
                if id_set_contains(&self.routes, t) {
                    actions.push(
                        Action::Notify(
                            t,
                            Operation::SynchVar(binding.binder, Value::Bound(id, binding.payload)),
                        ),
                    );
                }
            },
            None => {
                let mut readers = match reader_table_remove(&mut self.waiting_threads, id) {
                    Some(readers) => readers,
                    None => Vec::new(),
                };
                readers.push(t);
                reader_table_insert(&mut self.waiting_threads, id, readers);
            },
        }
        match id_table_remove(&mut self.wait_needed_threads, id) {
            Some(producer) => {
                if id_set_contains(&self.routes, producer) {
                    actions.push(
                        Action::Notify(producer, Operation::SynchVar(t, Value::Unbound(id))),
                    );
                }
            },
            None => {},
        }
        actions
    }

    fn bind(&mut self, t: ThreadId, id: VariableId, payload: Payload) -> (r: Result<
        Vec<Action>,
        SchedulerError,
    >)
        ensures
            match old(self)@.bind(t, id, payload) {
                Ok(step) => r is Ok && r->Ok_0@ == step.actions && final(self)@ == step.state,
                Err(e) => r is Err && r->Err_0 == e && final(self)@ == old(self)@,
            },
    {
        if binding_table_get(&self.bound_variables, id).is_some() {
            return Err(SchedulerError::DuplicateBind(id));
        }
        binding_table_insert(&mut self.bound_variables, id, Binding { binder: t, payload });
        let readers = match reader_table_remove(&mut self.waiting_threads, id) {
            Some(readers) => readers,
            None => Vec::new(),
        };
        let mut actions: Vec<Action> = Vec::new();
        let mut i: usize = 0;
        while i < readers.len()
            invariant
                i <= readers.len(),
                actions@ == notify_readers(
                    id_set(self.routes),
                    readers@.take(i as int),
                    t,
                    Value::Bound(id, payload),
                ),
            decreases readers.len() - i,
        {
            let reader = readers[i];
            if id_set_contains(&self.routes, reader) {
                actions.push(Action::Notify(reader, Operation::SynchVar(t, Value::Bound(id, payload))));
            }
            proof {
                assert(readers@.take(i + 1).drop_last() == readers@.take(i as int));
            }
            i += 1;
        }
        proof {
            assert(readers@.take(readers.len() as int) == readers@);
        }
        Ok(actions)
    }

    fn spawn(&mut self, program: Vec<Operation>) -> (r: Result<Vec<Action>, SchedulerError>)
        ensures
            match old(self)@.spawn(program) {
                Ok(step) => r is Ok && r->Ok_0@ == step.actions && final(self)@ == step.state,
                Err(e) => r is Err && r->Err_0 == e && final(self)@ == old(self)@,
            },
    {
        if self.next_thread_id == u64::MAX {
            return Err(SchedulerError::ThreadIdsExhausted);
        }
        let thread_id = self.next_thread_id;
        self.next_thread_id = thread_id + 1;
        id_set_insert(&mut self.routes, thread_id);
        let mut actions: Vec<Action> = Vec::new();
        actions.push(Action::Spawn(thread_id, program));
        Ok(actions)
    }

    fn wait_needed(&mut self, t: ThreadId, id: VariableId) -> (actions: Vec<Action>)
        ensures
            actions@ == old(self)@.wait_needed(t, id).actions,
            final(self)@ == old(self)@.wait_needed(t, id).state,
    {
        if id_table_get(&self.wait_needed_threads, id).is_none() {
            id_table_insert(&mut self.wait_needed_threads, id, t);
        }
        Vec::new()
    }

    fn terminate(&mut self, t: ThreadId) -> (actions: Vec<Action>)
        ensures
            actions@ == old(self)@.terminate(t).actions,
            final(self)@ == old(self)@.terminate(t).state,
    {
        let mut actions: Vec<Action> = Vec::new();
        if id_set_remove(&mut self.routes, t) {
            actions.push(Action::Close(t));
        }
        if id_set_is_empty(&self.routes) {
            actions.push(Action::Halt);
        }
        actions
    }

    /// Starts the first activity: gives it an id, opens its route and hands out the
    /// program that the coordinator was made with. A second start does nothing.
    pub fn start(&mut self) -> (r: Result<Vec<Action>, SchedulerError>)
        ensures
            match old(self)@.start() {
                Ok(step) => r is Ok && r->Ok_0@ == step.actions && final(self)@ == step.state,
                Err(e) => r is Err && r->Err_0 == e && final(self)@ == old(self)@,
            },
            old(self)@.wf() ==> final(self)@.wf(),
    {
        if self.em.is_some() && self.next_thread_id == u64::MAX {
            return Err(SchedulerError::ThreadIdsExhausted);
        }
        match self.em.take() {
            Some(program) => self.spawn(program),
            None => Ok(Vec::new()),
        }
    }

    /// Takes one message from an activity, updates the tables and says what is to be done.
    ///
    /// A read request is answered at once where the variable is bound; otherwise the reader
    /// joins the variable's wait-list. Either way a declared lazy producer of the variable is
    /// told of the demand, once. A binding announcement is recorded and sent on to every
    /// waiting reader in arrival order; a second binding of a variable is refused and changes
    /// nothing. A spawn request opens a route under a fresh id. A lazy declaration is kept
    /// unless the variable has a producer already. A termination closes the activity's route,
    /// and ends the run when it was the last.
    pub fn handle(&mut self, op: Operation) -> (r: Result<Vec<Action>, SchedulerError>)
        ensures
            match old(self)@.handle(op) {
                Ok(step) => r is Ok && r->Ok_0@ == step.actions && final(self)@ == step.state,
                Err(e) => r is Err && r->Err_0 == e && final(self)@ == old(self)@,
            },
            old(self)@.wf() ==> final(self)@.wf(),
    {
        proof {
            if old(self)@.wf() {
                lemma_handle_preserves_wf(old(self)@, op);
            }
        }
        match op {
            Operation::SynchVar(t, Value::Unbound(id)) => Ok(self.read_request(t, id)),
            Operation::SynchVar(t, Value::Bound(id, payload)) => self.bind(t, id, payload),
            Operation::ThreadSpawn(_, program) => self.spawn(program),
            Operation::WaitNeeded(t, id) => Ok(self.wait_needed(t, id)),
            Operation::ThreadTerminate(t) => Ok(self.terminate(t)),
        }
    }

    /// One turn of the coordinator's loop: `Some` is a message that arrived, `None` the news
    /// that the inbound channel is closed, which ends the run like the last termination.
    pub fn step(&mut self, received: Option<Operation>) -> (r: Result<Vec<Action>, SchedulerError>)
        ensures
            match old(self)@.step(received) {
                Ok(step) => r is Ok && r->Ok_0@ == step.actions && final(self)@ == step.state,
                Err(e) => r is Err && r->Err_0 == e && final(self)@ == old(self)@,
            },
            old(self)@.wf() ==> final(self)@.wf(),
    {
        match received {
            Some(op) => self.handle(op),
            None => {
                let mut actions: Vec<Action> = Vec::new();
                actions.push(Action::Halt);
                Ok(actions)
            },
        }
    }

    /// Whether no activity can be reached any more.
    pub fn is_finished(&self) -> (b: bool)
        ensures
            b == self@.finished(),
    {
        id_set_is_empty(&self.routes)
    }

    /// Whether the activity can be reached.
    pub fn is_live(&self, t: ThreadId) -> (b: bool)
        ensures
            b == self@.routes.contains(t),
    {
        id_set_contains(&self.routes, t)
    }

    /// The binding of the variable, as it is announced to readers; `None` while it is unbound.
    pub fn binding(&self, id: VariableId) -> (v: Option<Value>)
        ensures
            v == (if self@.bound.contains_key(id) {
                Some(Value::Bound(id, self@.bound[id].payload))
            } else {
                None
            }),
    {
        match binding_table_get(&self.bound_variables, id) {
            Some(binding) => Some(Value::Bound(id, binding.payload)),
            None => None,
        }
    }

    /// The activities that wait for the variable, in arrival order.
    pub fn pending_readers(&self, id: VariableId) -> (readers: Vec<ThreadId>)
        ensures
            readers@ == self@.readers_of(id),
    {
        match reader_table_get(&self.waiting_threads, id) {
            Some(readers) => readers,
            None => Vec::new(),
        }
    }

    /// The declared lazy producer of the variable that still waits for a demand.
    pub fn lazy_producer(&self, id: VariableId) -> (producer: Option<ThreadId>)
        ensures
            producer == (if self@.lazy_producers.contains_key(id) {
                Some(self@.lazy_producers[id])
            } else {
                None
            }),
    {
        id_table_get(&self.wait_needed_threads, id)
    }
}

} // verus!
