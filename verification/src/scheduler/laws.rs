//! What holds of the coordinator and of its activities over whole runs.

use vstd::prelude::*;
use crate::compiler::value::VariableId;
use crate::scheduler::operation::{Operation, Payload, ThreadId, Value};
use crate::scheduler::process::{
    lemma_handle_preserves_wf, notify_if_live, notify_readers, run, Action, ProcessView,
    SchedulerError, Step,
};
use crate::scheduler::tables::{holds_nothing, Binding};
use crate::scheduler::thread::{wakes, ThreadState};

verus! {

/// The messages that the actions deliver to activity `t`, in order.
pub open spec fn delivered_to(actions: Seq<Action>, t: ThreadId) -> Seq<Operation>
    decreases actions.len(),
{
    if actions.len() == 0 {
        Seq::empty()
    } else {
        let before = delivered_to(actions.drop_last(), t);
        match actions.last() {
            Action::Notify(to, op) => if to == t {
                before.push(op)
            } else {
                before
            },
            _ => before,
        }
    }
}

/// The terminations of the given activities, one message each.
pub open spec fn terminations(done: Seq<ThreadId>) -> Seq<Operation> {
    Seq::new(done.len(), |i: int| Operation::ThreadTerminate(done[i]))
}

/// Read after bind: a request to read a bound variable is answered in the same step with
/// the binding, and the reader joins no wait-list.
pub proof fn lemma_read_after_bind(s: ProcessView, reader: ThreadId, id: VariableId)
    requires
        s.bound.contains_key(id),
        s.routes.contains(reader),
    ensures
        s.handle(Operation::SynchVar(reader, Value::Unbound(id))) is Ok,
        ({
            let step = s.handle(Operation::SynchVar(reader, Value::Unbound(id)))->Ok_0;
            &&& step.actions.len() >= 1
            &&& step.actions[0] == Action::Notify(
                reader,
                Operation::SynchVar(s.bound[id].binder, Value::Bound(id, s.bound[id].payload)),
            )
            &&& step.state.pending_readers == s.pending_readers
            &&& step.state.bound == s.bound
        }),
{
}

/// A run ends with the last termination and not before: the coordinator says `Halt` when an
/// activity that can be reached terminates and no other can be reached, and at no other
/// termination.
pub proof fn lemma_halt_at_last_termination(s: ProcessView, t: ThreadId)
    requires
        s.wf(),
        s.routes.contains(t),
    ensures
        s.terminate(t).actions.contains(Action::Halt) <==> s.routes.len() == 1,
        s.terminate(t).state.routes == s.routes.remove(t),
        s.terminate(t).state.routes.len() == s.routes.len() - 1,
{
    let step = s.terminate(t);
    let left = s.routes.remove(t);
    if left.len() == 0 {
        assert(holds_nothing(left)) by {
            assert forall|id: u64| !left.contains(id) by {
                if left.contains(id) {
                    assert(left.len() > 0) by {
                        vstd::set_lib::lemma_set_empty_equivalency_len(left);
                    }
                }
            }
        }
        assert(step.actions == seq![Action::Close(t)] + seq![Action::Halt]);
        assert(step.actions[1] == Action::Halt);
    } else {
        assert(!holds_nothing(left)) by {
            if holds_nothing(left) {
                assert(left =~= Set::<u64>::empty());
            }
        }
        assert(step.actions == seq![Action::Close(t)] + Seq::<Action>::empty());
        assert(step.actions =~= seq![Action::Close(t)]);
    }
}

/// How often activity `t` stands in the list.
pub open spec fn times_in(readers: Seq<ThreadId>, t: ThreadId) -> nat
    decreases readers.len(),
{
    if readers.len() == 0 {
        0
    } else {
        times_in(readers.drop_last(), t) + if readers.last() == t {
            1nat
        } else {
            0nat
        }
    }
}

/// Whether an action with this result is among the actions.
proof fn lemma_contains_concat(a: Seq<Action>, b: Seq<Action>, x: Action)
    ensures
        (a + b).contains(x) <==> a.contains(x) || b.contains(x),
{
    if a.contains(x) {
        let i = choose|i: int| 0 <= i < a.len() && a[i] == x;
        assert((a + b)[i] == x);
    }
    if b.contains(x) {
        let i = choose|i: int| 0 <= i < b.len() && b[i] == x;
        assert((a + b)[a.len() + i] == x);
    }
    if (a + b).contains(x) {
        let i = choose|i: int| 0 <= i < (a + b).len() && (a + b)[i] == x;
        if i < a.len() {
            assert(a[i] == x);
        } else {
            assert(b[i - a.len()] == x);
        }
    }
}

/// What is delivered by two runs of actions, one after the other.
pub proof fn lemma_delivered_concat(a: Seq<Action>, b: Seq<Action>, t: ThreadId)
    ensures
        delivered_to(a + b, t) == delivered_to(a, t) + delivered_to(b, t),
    decreases b.len(),
{
    if b.len() == 0 {
        assert(a + b == a);
        assert(delivered_to(a, t) + delivered_to(b, t) == delivered_to(a, t));
    } else {
        assert((a + b).drop_last() == a + b.drop_last());
        assert((a + b).last() == b.last());
        lemma_delivered_concat(a, b.drop_last(), t);
        let before = delivered_to(a, t) + delivered_to(b.drop_last(), t);
        match b.last() {
            Action::Notify(to, op) => {
                if to == t {
                    assert(before.push(op) == delivered_to(a, t) + delivered_to(
                        b.drop_last(),
                        t,
                    ).push(op));
                }
            },
            _ => {},
        }
    }
}

/// What a possible notification delivers.
proof fn lemma_delivered_if_live(routes: Set<ThreadId>, to: ThreadId, op: Operation, t: ThreadId)
    ensures
        delivered_to(notify_if_live(routes, to, op), t) == if routes.contains(to) && to == t {
            seq![op]
        } else {
            Seq::empty()
        },
{
    let n = notify_if_live(routes, to, op);
    if routes.contains(to) {
        assert(n.drop_last() == Seq::<Action>::empty());
        assert(delivered_to(n.drop_last(), t) == Seq::<Operation>::empty());
        if to == t {
            assert(Seq::<Operation>::empty().push(op) == seq![op]);
        }
    }
}

/// The announcement of a binding reaches an activity once for each time that it stands in
/// the wait-list, if it can be reached at all.
pub proof fn lemma_delivered_to_reader(
    routes: Set<ThreadId>,
    readers: Seq<ThreadId>,
    binder: ThreadId,
    value: Value,
    t: ThreadId,
)
    ensures
        delivered_to(notify_readers(routes, readers, binder, value), t) == Seq::new(
            if routes.contains(t) {
                times_in(readers, t)
            } else {
                0
            },
            |i: int| Operation::SynchVar(binder, value),
        ),
    decreases readers.len(),
{
    let op = Operation::SynchVar(binder, value);
    if readers.len() == 0 {
        assert(delivered_to(notify_readers(routes, readers, binder, value), t) == Seq::new(
            0,
            |i: int| op,
        ));
    } else {
        let before = notify_readers(routes, readers.drop_last(), binder, value);
        let last = notify_if_live(routes, readers.last(), op);
        lemma_delivered_to_reader(routes, readers.drop_last(), binder, value, t);
        lemma_delivered_concat(before, last, t);
        lemma_delivered_if_live(routes, readers.last(), op, t);
        let n: nat = if routes.contains(t) {
            times_in(readers.drop_last(), t)
        } else {
            0
        };
        if routes.contains(readers.last()) && readers.last() == t {
            assert(Seq::new(n, |i: int| op) + seq![op] == Seq::new(n + 1, |i: int| op));
        } else {
            assert(Seq::new(n, |i: int| op) + Seq::<Operation>::empty() == Seq::new(
                n,
                |i: int| op,
            ));
        }
    }
}

/// Structured join: when activities that can be reached terminate, each once, the
/// coordinator says `Halt` if and only if they are all that could be reached. With one of
/// them still to come the run goes on.
pub proof fn lemma_structured_join(s: ProcessView, done: Seq<ThreadId>)
    requires
        s.wf(),
        done.no_duplicates(),
        forall|i: int| 0 <= i < done.len() ==> s.routes.contains(done[i]),
    ensures
        run(s, terminations(done)) is Ok,
        done.len() <= s.routes.len(),
        ({
            let end = run(s, terminations(done))->Ok_0;
            &&& end.state.wf()
            &&& end.state.routes == s.routes.difference(done.to_set())
            &&& end.actions.contains(Action::Halt) <==> done.len() > 0 && done.len()
                == s.routes.len()
        }),
    decreases done.len(),
{
    let ops = terminations(done);
    if done.len() == 0 {
        assert(s.routes.difference(done.to_set()) == s.routes);
        let end = run(s, ops)->Ok_0;
        assert(!end.actions.contains(Action::Halt));
    } else {
        let t = done[0];
        let rest = done.drop_first();
        let first = s.terminate(t);
        assert(ops[0] == Operation::ThreadTerminate(t));
        assert(s.handle(ops[0]) == Ok::<Step, SchedulerError>(first));
        assert(ops.drop_first() == terminations(rest));
        lemma_handle_preserves_wf(s, ops[0]);
        lemma_halt_at_last_termination(s, t);
        assert forall|i: int| 0 <= i < rest.len() implies first.state.routes.contains(rest[i]) by {
            assert(rest[i] == done[i + 1]);
            assert(done[i + 1] != done[0]);
        }
        assert(rest.no_duplicates()) by {
            assert forall|i: int, j: int| 0 <= i < rest.len() && 0 <= j < rest.len() && i != j implies rest[i] != rest[j] by {
                assert(rest[i] == done[i + 1]);
                assert(rest[j] == done[j + 1]);
            }
        }
        lemma_structured_join(first.state, rest);
        let tail = run(first.state, terminations(rest))->Ok_0;
        let end = run(s, ops)->Ok_0;
        assert(end.actions == first.actions + tail.actions);
        lemma_contains_concat(first.actions, tail.actions, Action::Halt);
        assert(end.state.routes == s.routes.difference(done.to_set())) by {
            assert forall|x: ThreadId| end.state.routes.contains(x) <==> s.routes.difference(
                done.to_set(),
            ).contains(x) by {
                if done.to_set().contains(x) {
                    let i = choose|i: int| 0 <= i < done.len() && done[i] == x;
                    if i > 0 {
                        assert(rest[i - 1] == x);
                        assert(rest.to_set().contains(x));
                    }
                }
                if rest.to_set().contains(x) {
                    let i = choose|i: int| 0 <= i < rest.len() && rest[i] == x;
                    assert(done[i + 1] == x);
                }
                assert(done[0] == t);
            }
        }
    }
}

/// Every message that is delivered stands in a notification among the actions.
pub proof fn lemma_delivered_is_notified(actions: Seq<Action>, t: ThreadId)
    ensures
        forall|i: int|
            0 <= i < delivered_to(actions, t).len() ==> actions.contains(
                Action::Notify(t, #[trigger] delivered_to(actions, t)[i]),
            ),
    decreases actions.len(),
{
    if actions.len() > 0 {
        let front = actions.drop_last();
        lemma_delivered_is_notified(front, t);
        assert forall|i: int| 0 <= i < delivered_to(actions, t).len() implies actions.contains(
            Action::Notify(t, #[trigger] delivered_to(actions, t)[i]),
        ) by {
            let m = delivered_to(actions, t)[i];
            if i < delivered_to(front, t).len() {
                assert(delivered_to(front, t)[i] == m);
                let j = choose|j: int| 0 <= j < front.len() && front[j] == Action::Notify(t, m);
                assert(actions[j] == Action::Notify(t, m));
            } else {
                assert(actions[actions.len() - 1] == Action::Notify(t, m));
            }
        }
    }
}

/// Every notification that goes out on a binding is the announcement, to a reader that can
/// be reached.
proof fn lemma_notify_readers_members(
    routes: Set<ThreadId>,
    readers: Seq<ThreadId>,
    binder: ThreadId,
    value: Value,
)
    ensures
        forall|i: int|
            0 <= i < notify_readers(routes, readers, binder, value).len() ==> {
                let a = #[trigger] notify_readers(routes, readers, binder, value)[i];
                exists|j: int|
                    0 <= j < readers.len() && a == Action::Notify(
                        #[trigger] readers[j],
                        Operation::SynchVar(binder, value),
                    )
            },
    decreases readers.len(),
{
    if readers.len() > 0 {
        let all = notify_readers(routes, readers, binder, value);
        let before = notify_readers(routes, readers.drop_last(), binder, value);
        lemma_notify_readers_members(routes, readers.drop_last(), binder, value);
        assert forall|i: int| 0 <= i < all.len() implies {
            let a = #[trigger] all[i];
            exists|j: int|
                0 <= j < readers.len() && a == Action::Notify(
                    #[trigger] readers[j],
                    Operation::SynchVar(binder, value),
                )
        } by {
            if i < before.len() {
                assert(all[i] == before[i]);
                let j = choose|j: int|
                    0 <= j < readers.drop_last().len() && before[i] == Action::Notify(
                        #[trigger] readers.drop_last()[j],
                        Operation::SynchVar(binder, value),
                    );
                assert(readers[j] == readers.drop_last()[j]);
            } else {
                assert(all[i] == Action::Notify(
                    readers[readers.len() - 1],
                    Operation::SynchVar(binder, value),
                ));
            }
        }
    }
}

/// An activity that stands in a list stands there at least once.
proof fn lemma_times_in_positive(readers: Seq<ThreadId>, j: int)
    requires
        0 <= j < readers.len(),
    ensures
        times_in(readers, readers[j]) > 0,
    decreases readers.len(),
{
    if j < readers.len() - 1 {
        assert(readers.drop_last()[j] == readers[j]);
        lemma_times_in_positive(readers.drop_last(), j);
    }
}

/// Whether the message leaves a reader of `id` waiting: it does not bind `id`, it is not
/// the reader's termination, and it is not a second request of the reader for `id`.
pub open spec fn keeps_reader_waiting(op: Operation, reader: ThreadId, id: VariableId) -> bool {
    match op {
        Operation::SynchVar(t, Value::Unbound(i)) => !(t == reader && i == id),
        Operation::SynchVar(_, Value::Bound(i, _)) => i != id,
        Operation::ThreadTerminate(t) => t != reader,
        _ => true,
    }
}

/// The reader can be reached and stands once in the wait-list of the unbound variable.
pub open spec fn waits_for(s: ProcessView, reader: ThreadId, id: VariableId) -> bool {
    &&& !s.bound.contains_key(id)
    &&& s.routes.contains(reader)
    &&& times_in(s.readers_of(id), reader) == 1
}

/// The state of an activity that has asked to read `id`.
pub open spec fn reading(reader: ThreadId, id: VariableId) -> ThreadState {
    ThreadState::Waiting(Operation::SynchVar(reader, Value::Unbound(id)))
}

proof fn lemma_waiting_step(s: ProcessView, op: Operation, reader: ThreadId, id: VariableId)
    requires
        waits_for(s, reader, id),
        keeps_reader_waiting(op, reader, id),
        s.handle(op) is Ok,
    ensures
        waits_for(s.handle(op)->Ok_0.state, reader, id),
        forall|m: Operation| #[trigger]
            s.handle(op)->Ok_0.actions.contains(Action::Notify(reader, m)) ==> !wakes(
                reading(reader, id),
                m,
            ),
{
    let step = s.handle(op)->Ok_0;
    match op {
        Operation::SynchVar(t, Value::Unbound(i)) => {
            if !s.bound.contains_key(i) && i == id {
                assert(s.readers_of(id).push(t).drop_last() == s.readers_of(id));
            }
        },
        Operation::SynchVar(t, Value::Bound(i, payload)) => {
            lemma_notify_readers_members(s.routes, s.readers_of(i), t, Value::Bound(i, payload));
        },
        _ => {},
    }
}

proof fn lemma_waiting_run(s: ProcessView, mid: Seq<Operation>, reader: ThreadId, id: VariableId)
    requires
        waits_for(s, reader, id),
        forall|i: int| 0 <= i < mid.len() ==> keeps_reader_waiting(mid[i], reader, id),
        run(s, mid) is Ok,
    ensures
        waits_for(run(s, mid)->Ok_0.state, reader, id),
        forall|m: Operation| #[trigger]
            run(s, mid)->Ok_0.actions.contains(Action::Notify(reader, m)) ==> !wakes(
                reading(reader, id),
                m,
            ),
    decreases mid.len(),
{
    if mid.len() > 0 {
        let first = s.handle(mid[0])->Ok_0;
        let rest = mid.drop_first();
        lemma_waiting_step(s, mid[0], reader, id);
        assert forall|i: int| 0 <= i < rest.len() implies keeps_reader_waiting(
            rest[i],
            reader,
            id,
        ) by {
            assert(rest[i] == mid[i + 1]);
        }
        lemma_waiting_run(first.state, rest, reader, id);
        let tail = run(first.state, rest)->Ok_0;
        assert forall|m: Operation| #[trigger]
            run(s, mid)->Ok_0.actions.contains(Action::Notify(reader, m)) implies !wakes(
            reading(reader, id),
            m,
        ) by {
            lemma_contains_concat(first.actions, tail.actions, Action::Notify(reader, m));
        }
    }
}

/// Read before bind: an activity that asks for an unbound variable is told of its binding
/// once, when the variable is bound, and not before.
///
/// The request itself is not answered. Whatever the coordinator then handles in `mid`,
/// as long as it neither binds the variable nor ends the reader, nothing that is delivered
/// to the reader ends its wait. The binding then delivers to the reader exactly one
/// message, the announcement of the binding, and that ends its wait; the wait-list of the
/// variable is gone.
pub proof fn lemma_read_before_bind(
    s: ProcessView,
    reader: ThreadId,
    id: VariableId,
    mid: Seq<Operation>,
    binder: ThreadId,
    payload: Payload,
)
    requires
        !s.bound.contains_key(id),
        s.routes.contains(reader),
        times_in(s.readers_of(id), reader) == 0,
        forall|i: int| 0 <= i < mid.len() ==> keeps_reader_waiting(mid[i], reader, id),
        run(s.read(reader, id).state, mid) is Ok,
    ensures
        ({
            let asked = s.read(reader, id);
            let waited = run(asked.state, mid)->Ok_0;
            let announcement = Operation::SynchVar(binder, Value::Bound(id, payload));
            &&& forall|i: int|
                0 <= i < delivered_to(asked.actions, reader).len() ==> !wakes(
                    reading(reader, id),
                    #[trigger] delivered_to(asked.actions, reader)[i],
                )
            &&& forall|i: int|
                0 <= i < delivered_to(waited.actions, reader).len() ==> !wakes(
                    reading(reader, id),
                    #[trigger] delivered_to(waited.actions, reader)[i],
                )
            &&& waited.state.bind(binder, id, payload) is Ok
            &&& delivered_to(waited.state.bind(binder, id, payload)->Ok_0.actions, reader)
                == seq![announcement]
            &&& wakes(reading(reader, id), announcement)
            &&& waited.state.bind(binder, id, payload)->Ok_0.state.readers_of(id)
                == Seq::<ThreadId>::empty()
            &&& waited.state.bind(binder, id, payload)->Ok_0.state.bound[id] == (Binding {
                binder,
                payload,
            })
        }),
{
    let asked = s.read(reader, id);
    assert(s.readers_of(id).push(reader).drop_last() == s.readers_of(id));
    assert(waits_for(asked.state, reader, id));
    lemma_waiting_run(asked.state, mid, reader, id);
    let waited = run(asked.state, mid)->Ok_0;
    let announcement = Operation::SynchVar(binder, Value::Bound(id, payload));
    lemma_delivered_is_notified(asked.actions, reader);
    lemma_delivered_is_notified(waited.actions, reader);
    lemma_delivered_to_reader(
        waited.state.routes,
        waited.state.readers_of(id),
        binder,
        Value::Bound(id, payload),
        reader,
    );
    assert(Seq::new(1, |i: int| announcement) == seq![announcement]);
}

/// Whether the message is a request to read `id`.
pub open spec fn demands(op: Operation, id: VariableId) -> bool {
    op matches Operation::SynchVar(_, Value::Unbound(i)) && i == id
}

/// The activity is the declared lazy producer of the variable, not yet demanded, and does
/// not itself wait to read it.
pub open spec fn lazy_for(s: ProcessView, producer: ThreadId, id: VariableId) -> bool {
    &&& s.lazy_producers.contains_key(id)
    &&& s.lazy_producers[id] == producer
    &&& times_in(s.readers_of(id), producer) == 0
}

proof fn lemma_lazy_step(s: ProcessView, op: Operation, producer: ThreadId, id: VariableId)
    requires
        lazy_for(s, producer, id),
        !demands(op, id),
        s.handle(op) is Ok,
    ensures
        lazy_for(s.handle(op)->Ok_0.state, producer, id),
        forall|m: Operation| #[trigger]
            s.handle(op)->Ok_0.actions.contains(Action::Notify(producer, m)) ==> !wakes(
                ThreadState::WaitNeeded(id),
                m,
            ),
{
    let step = s.handle(op)->Ok_0;
    match op {
        Operation::SynchVar(t, Value::Bound(i, payload)) => {
            lemma_notify_readers_members(s.routes, s.readers_of(i), t, Value::Bound(i, payload));
            if i == id {
                assert forall|m: Operation| #[trigger]
                    step.actions.contains(Action::Notify(producer, m)) implies false by {
                    let k = choose|k: int|
                        0 <= k < step.actions.len() && step.actions[k] == Action::Notify(
                            producer,
                            m,
                        );
                    let j = choose|j: int|
                        0 <= j < s.readers_of(i).len() && step.actions[k] == Action::Notify(
                            #[trigger] s.readers_of(i)[j],
                            Operation::SynchVar(t, Value::Bound(i, payload)),
                        );
                    lemma_times_in_positive(s.readers_of(i), j);
                }
            }
        },
        _ => {},
    }
}

proof fn lemma_lazy_run(s: ProcessView, ops: Seq<Operation>, producer: ThreadId, id: VariableId)
    requires
        lazy_for(s, producer, id),
        forall|i: int| 0 <= i < ops.len() ==> !demands(ops[i], id),
        run(s, ops) is Ok,
    ensures
        lazy_for(run(s, ops)->Ok_0.state, producer, id),
        forall|m: Operation| #[trigger]
            run(s, ops)->Ok_0.actions.contains(Action::Notify(producer, m)) ==> !wakes(
                ThreadState::WaitNeeded(id),
                m,
            ),
    decreases ops.len(),
{
    if ops.len() > 0 {
        let first = s.handle(ops[0])->Ok_0;
        let rest = ops.drop_first();
        lemma_lazy_step(s, ops[0], producer, id);
        assert forall|i: int| 0 <= i < rest.len() implies !demands(rest[i], id) by {
            assert(rest[i] == ops[i + 1]);
        }
        lemma_lazy_run(first.state, rest, producer, id);
        let tail = run(first.state, rest)->Ok_0;
        assert forall|m: Operation| #[trigger]
            run(s, ops)->Ok_0.actions.contains(Action::Notify(producer, m)) implies !wakes(
            ThreadState::WaitNeeded(id),
            m,
        ) by {
            lemma_contains_concat(first.actions, tail.actions, Action::Notify(producer, m));
        }
    }
}

/// Laziness, on the coordinator's side: as long as nobody asks to read the variable, its
/// declared lazy producer stays registered and nothing that is delivered to it ends its
/// wait, whatever else the coordinator handles.
pub proof fn lemma_lazy_until_demanded(
    s: ProcessView,
    ops: Seq<Operation>,
    producer: ThreadId,
    id: VariableId,
)
    requires
        lazy_for(s, producer, id),
        forall|i: int| 0 <= i < ops.len() ==> !demands(ops[i], id),
        run(s, ops) is Ok,
    ensures
        lazy_for(run(s, ops)->Ok_0.state, producer, id),
        forall|i: int|
            0 <= i < delivered_to(run(s, ops)->Ok_0.actions, producer).len() ==> !wakes(
                ThreadState::WaitNeeded(id),
                #[trigger] delivered_to(run(s, ops)->Ok_0.actions, producer)[i],
            ),
{
    lemma_lazy_run(s, ops, producer, id);
    lemma_delivered_is_notified(run(s, ops)->Ok_0.actions, producer);
}

/// Laziness, the demand: the first request to read the variable is sent on to its declared
/// lazy producer, that ends the producer's wait, and the registration is used up, so that
/// no later request is sent on.
pub proof fn lemma_demand_wakes_producer(
    s: ProcessView,
    reader: ThreadId,
    id: VariableId,
    producer: ThreadId,
)
    requires
        s.lazy_producers.contains_key(id),
        s.lazy_producers[id] == producer,
        s.routes.contains(producer),
    ensures
        s.read(reader, id).actions.last() == Action::Notify(
            producer,
            Operation::SynchVar(reader, Value::Unbound(id)),
        ),
        wakes(ThreadState::WaitNeeded(id), Operation::SynchVar(reader, Value::Unbound(id))),
        !s.read(reader, id).state.lazy_producers.contains_key(id),
{
}

/// Whether the message announces a binding of `id`.
pub open spec fn binds(op: Operation, id: VariableId) -> bool {
    op matches Operation::SynchVar(_, Value::Bound(i, _)) && i == id
}

/// The binding that the announcement records.
pub open spec fn binding_of(op: Operation) -> Binding {
    match op {
        Operation::SynchVar(binder, Value::Bound(_, payload)) => Binding { binder, payload },
        _ => arbitrary(),
    }
}

/// Single assignment: in a run without fault every binding that was there stays as it was,
/// the variables bound at the end are those bound before and those that the run's
/// announcements bind, and each announcement is what its variable holds at the end.
pub proof fn lemma_bindings_are_permanent(s: ProcessView, ops: Seq<Operation>)
    requires
        run(s, ops) is Ok,
    ensures
        forall|id: VariableId| #[trigger]
            s.bound.contains_key(id) ==> run(s, ops)->Ok_0.state.bound.contains_key(id) && run(
                s,
                ops,
            )->Ok_0.state.bound[id] == s.bound[id],
        forall|id: VariableId| #[trigger]
            run(s, ops)->Ok_0.state.bound.contains_key(id) ==> s.bound.contains_key(id) || exists|
                i: int,
            |
                0 <= i < ops.len() && binds(#[trigger] ops[i], id),
        forall|i: int, id: VariableId|
            0 <= i < ops.len() && binds(#[trigger] ops[i], id) ==> !s.bound.contains_key(id)
                && #[trigger] run(s, ops)->Ok_0.state.bound.contains_key(id) && run(
                s,
                ops,
            )->Ok_0.state.bound[id] == binding_of(ops[i]),
    decreases ops.len(),
{
    if ops.len() > 0 {
        let first = s.handle(ops[0])->Ok_0;
        let rest = ops.drop_first();
        let end = run(s, ops)->Ok_0.state;
        lemma_bindings_are_permanent(first.state, rest);
        assert(end == run(first.state, rest)->Ok_0.state);
        assert forall|id: VariableId| #[trigger] end.bound.contains_key(id) implies s.bound.contains_key(id)
            || exists|i: int| 0 <= i < ops.len() && binds(#[trigger] ops[i], id) by {
            if !s.bound.contains_key(id) {
                if first.state.bound.contains_key(id) {
                    assert(binds(ops[0], id));
                } else {
                    let i = choose|i: int| 0 <= i < rest.len() && binds(#[trigger] rest[i], id);
                    assert(rest[i] == ops[i + 1]);
                    assert(binds(ops[i + 1], id));
                }
            }
        }
        assert forall|i: int, id: VariableId|
            0 <= i < ops.len() && binds(#[trigger] ops[i], id) implies !s.bound.contains_key(id)
            && #[trigger] end.bound.contains_key(id) && end.bound[id] == binding_of(ops[i]) by {
            if i == 0 {
                assert(first.state.bound.contains_key(id));
            } else {
                assert(rest[i - 1] == ops[i]);
                assert(binds(rest[i - 1], id));
            }
        }
    }
}

/// How many of the messages meet the condition.
pub open spec fn count_of(ops: Seq<Operation>, p: spec_fn(Operation) -> bool) -> nat
    decreases ops.len(),
{
    if ops.len() == 0 {
        0
    } else {
        count_of(ops.drop_first(), p) + if p(ops[0]) {
            1nat
        } else {
            0nat
        }
    }
}

/// How many of the messages announce a binding of `id`.
pub open spec fn bind_count(ops: Seq<Operation>, id: VariableId) -> nat {
    count_of(ops, |op: Operation| binds(op, id))
}

/// How many of the messages ask for a new activity.
pub open spec fn spawn_count(ops: Seq<Operation>) -> nat {
    count_of(ops, |op: Operation| op is ThreadSpawn)
}

/// Whether the coordinator can handle all the messages: no variable is bound twice, by
/// them or before them, and the thread ids suffice for the activities asked for.
pub open spec fn acceptable(s: ProcessView, ops: Seq<Operation>) -> bool {
    &&& forall|id: VariableId|
        #![trigger bind_count(ops, id)]
        bind_count(ops, id) + (if s.bound.contains_key(id) {
            1nat
        } else {
            0nat
        }) <= 1
    &&& s.next_thread_id + spawn_count(ops) <= u64::MAX
}

proof fn lemma_count_remove(ops: Seq<Operation>, p: spec_fn(Operation) -> bool, j: int)
    requires
        0 <= j < ops.len(),
    ensures
        count_of(ops, p) == count_of(ops.remove(j), p) + if p(ops[j]) {
            1nat
        } else {
            0nat
        },
    decreases ops.len(),
{
    if j == 0 {
        assert(ops.remove(0) == ops.drop_first());
    } else {
        lemma_count_remove(ops.drop_first(), p, j - 1);
        assert(ops.remove(j).drop_first() == ops.drop_first().remove(j - 1));
        assert(ops.remove(j)[0] == ops[0]);
        assert(ops.drop_first()[j - 1] == ops[j]);
    }
}

/// A count does not depend on the order of the messages.
pub proof fn lemma_count_of_any_order(
    a: Seq<Operation>,
    b: Seq<Operation>,
    p: spec_fn(Operation) -> bool,
)
    requires
        a.to_multiset() == b.to_multiset(),
    ensures
        count_of(a, p) == count_of(b, p),
    decreases a.len(),
{
    a.to_multiset_ensures();
    b.to_multiset_ensures();
    if a.len() == 0 {
        assert(b.len() == 0);
    } else {
        let x = a[0];
        assert(a.contains(x));
        assert(a.to_multiset().count(x) > 0);
        assert(b.to_multiset().count(x) > 0);
        assert(b.contains(x));
        let j = choose|j: int| 0 <= j < b.len() && b[j] == x;
        assert(a.remove(0) == a.drop_first());
        assert(a.remove(0).to_multiset() == a.to_multiset().remove(a[0]));
        assert(b.remove(j).to_multiset() == b.to_multiset().remove(b[j]));
        lemma_count_of_any_order(a.drop_first(), b.remove(j), p);
        lemma_count_remove(b, p, j);
    }
}

/// The coordinator handles a sequence of messages without fault if and only if no
/// variable is bound twice and the thread ids suffice.
pub proof fn lemma_run_is_ok(s: ProcessView, ops: Seq<Operation>)
    ensures
        run(s, ops) is Ok <==> acceptable(s, ops),
    decreases ops.len(),
{
    if ops.len() == 0 {
        assert forall|id: VariableId| bind_count(ops, id) == 0 by {}
    } else {
        let rest = ops.drop_first();
        let spawning = |op: Operation| op is ThreadSpawn;
        assert(spawn_count(ops) == spawn_count(rest) + if spawning(ops[0]) {
            1nat
        } else {
            0nat
        });
        assert forall|id: VariableId|
            bind_count(ops, id) == #[trigger] bind_count(rest, id) + if binds(ops[0], id) {
                1nat
            } else {
                0nat
            } by {
            let binding = |op: Operation| binds(op, id);
            assert(binding(ops[0]) == binds(ops[0], id));
        }
        match s.handle(ops[0]) {
            Ok(first) => {
                lemma_run_is_ok(first.state, rest);
                if acceptable(first.state, rest) {
                    assert forall|id: VariableId|
                        #![trigger bind_count(ops, id)]
                        bind_count(ops, id) + (if s.bound.contains_key(id) {
                            1nat
                        } else {
                            0nat
                        }) <= 1 by {
                        assert(bind_count(rest, id) + (if first.state.bound.contains_key(id) {
                            1nat
                        } else {
                            0nat
                        }) <= 1);
                    }
                }
                if acceptable(s, ops) {
                    assert forall|id: VariableId|
                        #![trigger bind_count(rest, id)]
                        bind_count(rest, id) + (if first.state.bound.contains_key(id) {
                            1nat
                        } else {
                            0nat
                        }) <= 1 by {
                        assert(bind_count(ops, id) + (if s.bound.contains_key(id) {
                            1nat
                        } else {
                            0nat
                        }) <= 1);
                    }
                }
            },
            Err(e) => {
                match ops[0] {
                    Operation::SynchVar(_, Value::Bound(id, _)) => {
                        assert(binds(ops[0], id));
                        assert(bind_count(ops, id) >= 1);
                    },
                    _ => {},
                }
            },
        }
    }
}

/// Determinism: when the coordinator handles a sequence of messages without fault, it
/// handles them without fault in every other order too, and ends with the same bindings.
pub proof fn lemma_bindings_do_not_depend_on_order(
    s: ProcessView,
    a: Seq<Operation>,
    b: Seq<Operation>,
)
    requires
        a.to_multiset() == b.to_multiset(),
        run(s, a) is Ok,
    ensures
        run(s, b) is Ok,
        run(s, a)->Ok_0.state.bound == run(s, b)->Ok_0.state.bound,
{
    lemma_run_is_ok(s, a);
    lemma_run_is_ok(s, b);
    lemma_count_of_any_order(a, b, |op: Operation| op is ThreadSpawn);
    assert forall|id: VariableId|
        #![trigger bind_count(b, id)]
        bind_count(b, id) + (if s.bound.contains_key(id) {
            1nat
        } else {
            0nat
        }) <= 1 by {
        lemma_count_of_any_order(a, b, |op: Operation| binds(op, id));
        assert(bind_count(a, id) + (if s.bound.contains_key(id) {
            1nat
        } else {
            0nat
        }) <= 1);
    }
    let end_a = run(s, a)->Ok_0.state.bound;
    let end_b = run(s, b)->Ok_0.state.bound;
    lemma_bindings_are_permanent(s, a);
    lemma_bindings_are_permanent(s, b);
    a.to_multiset_ensures();
    b.to_multiset_ensures();
    assert forall|id: VariableId| end_a.contains_key(id) implies end_b.contains_key(id)
        && end_b[id] == end_a[id] by {
        if !s.bound.contains_key(id) {
            let i = choose|i: int| 0 <= i < a.len() && binds(#[trigger] a[i], id);
            assert(a.contains(a[i]));
            assert(a.to_multiset().count(a[i]) > 0);
            assert(b.to_multiset().count(a[i]) > 0);
            let j = choose|j: int| 0 <= j < b.len() && b[j] == a[i];
            assert(binds(b[j], id));
        }
    }
    assert forall|id: VariableId| end_b.contains_key(id) implies end_a.contains_key(id) by {
        if !s.bound.contains_key(id) {
            let i = choose|i: int| 0 <= i < b.len() && binds(#[trigger] b[i], id);
            assert(b.contains(b[i]));
            assert(b.to_multiset().count(b[i]) > 0);
            assert(a.to_multiset().count(b[i]) > 0);
            let j = choose|j: int| 0 <= j < a.len() && a[j] == b[i];
            assert(binds(a[j], id));
        }
    }
    assert(end_a =~= end_b);
}

} // verus!
