use sio::compiler::value::{FunRef, ThreadValue};
use sio::scheduler::operation::{Operation, Payload, Value};
use sio::scheduler::process::{Action, Process, SchedulerError};
use sio::scheduler::thread::{Outgoing, Thread};

fn announcement(binder: u64, id: u64, n: u64) -> Operation {
    Operation::SynchVar(binder, Value::Bound(id, Payload::Int(n)))
}

fn started(program: Vec<Operation>) -> Process {
    let mut process = Process::new(0, program);
    process.start().unwrap();
    process
}

#[test]
fn constructors_build_synch_var() {
    assert_eq!(Operation::unbound(3, 9), Operation::SynchVar(3, Value::Unbound(9)));
    assert_eq!(Operation::integer(1, 2, 5), Operation::SynchVar(1, Value::Bound(2, Payload::Int(5))));
    assert_eq!(Operation::integer(1, 2, 5).thread(), 1);
    assert_eq!(Operation::ThreadTerminate(8).thread(), 8);
    assert_eq!(Operation::WaitNeeded(4, 1).thread(), 4);
    assert_eq!(Operation::ThreadSpawn(6, vec![]).thread(), 6);
}

#[test]
fn value_knows_its_variable() {
    assert_eq!(Value::Unbound(7).id(), 7);
    assert_eq!(Value::Bound(8, Payload::Unit).id(), 8);
    assert!(!Value::Unbound(7).is_bound());
    assert!(Value::Bound(7, Payload::Bool(false)).is_bound());
}

#[test]
fn thread_values_stand_for_variables() {
    assert_eq!(Value::from_thread_value(ThreadValue::Unit), None);
    assert_eq!(Value::from_thread_value(ThreadValue::Unbound(3)), Some(Value::Unbound(3)));
    assert_eq!(
        Value::from_thread_value(ThreadValue::Bool(3, true)),
        Some(Value::Bound(3, Payload::Bool(true)))
    );
    assert_eq!(
        Value::from_thread_value(ThreadValue::Integer(3, 11)),
        Some(Value::Bound(3, Payload::Int(11)))
    );
    assert_eq!(
        Value::from_thread_value(ThreadValue::Fun(3, FunRef::Native(2))),
        Some(Value::Bound(3, Payload::Fun(FunRef::Native(2))))
    );
    assert_eq!(Value::Bound(3, Payload::Int(11)).to_thread_value(), ThreadValue::Integer(3, 11));
    assert_eq!(Value::Bound(3, Payload::Unit).to_thread_value(), ThreadValue::Unit);
    assert_eq!(Value::Unbound(4).to_thread_value(), ThreadValue::Unbound(4));
    assert_eq!(
        Value::Bound(5, Payload::Fun(FunRef::Fun(1))).to_thread_value(),
        ThreadValue::Fun(5, FunRef::Fun(1))
    );
    assert_eq!(Value::Bound(5, Payload::Bool(false)).to_thread_value(), ThreadValue::Bool(5, false));
}

#[test]
fn new_process_has_empty_tables() {
    let process = Process::new(17, vec![Operation::unbound(0, 1)]);
    assert_eq!(process.process_id(), 17);
    assert!(process.is_finished());
    assert!(!process.is_live(0));
    assert_eq!(process.binding(1), None);
    assert_eq!(process.pending_readers(1), Vec::<u64>::new());
    assert_eq!(process.lazy_producer(1), None);
}

#[test]
fn start_spawns_the_first_activity_once() {
    let mut process = Process::new(0, vec![Operation::unbound(0, 1)]);
    assert_eq!(process.start(), Ok(vec![Action::Spawn(0, vec![Operation::unbound(0, 1)])]));
    assert!(process.is_live(0));
    assert!(!process.is_finished());
    assert_eq!(process.start(), Ok(vec![]));
    assert!(!process.is_live(1));
}

#[test]
fn spawn_gives_fresh_ids_in_order() {
    let mut process = started(vec![]);
    assert_eq!(
        process.handle(Operation::ThreadSpawn(0, vec![Operation::integer(1, 0, 0)])),
        Ok(vec![Action::Spawn(1, vec![Operation::integer(1, 0, 0)])])
    );
    assert_eq!(
        process.handle(Operation::ThreadSpawn(9, vec![])),
        Ok(vec![Action::Spawn(2, vec![])])
    );
    assert!(process.is_live(1));
    assert!(process.is_live(2));
    assert!(!process.is_live(9));
}

#[test]
fn read_before_bind_is_answered_once_at_the_bind() {
    let mut process = started(vec![]);
    process.handle(Operation::ThreadSpawn(0, vec![])).unwrap();
    assert_eq!(process.handle(Operation::unbound(1, 7)), Ok(vec![]));
    assert_eq!(process.pending_readers(7), vec![1]);
    assert_eq!(process.handle(Operation::integer(0, 3, 1)), Ok(vec![]));
    assert_eq!(process.pending_readers(7), vec![1]);
    assert_eq!(
        process.handle(Operation::integer(0, 7, 42)),
        Ok(vec![Action::Notify(1, announcement(0, 7, 42))])
    );
    assert_eq!(process.pending_readers(7), Vec::<u64>::new());
    assert_eq!(process.binding(7), Some(Value::Bound(7, Payload::Int(42))));
    assert_eq!(process.handle(Operation::integer(0, 8, 1)), Ok(vec![]));
}

#[test]
fn read_after_bind_is_answered_at_once() {
    let mut process = started(vec![]);
    process.handle(Operation::ThreadSpawn(0, vec![])).unwrap();
    assert_eq!(process.handle(Operation::integer(0, 7, 42)), Ok(vec![]));
    assert_eq!(
        process.handle(Operation::unbound(1, 7)),
        Ok(vec![Action::Notify(1, announcement(0, 7, 42))])
    );
    assert_eq!(process.pending_readers(7), Vec::<u64>::new());
}

#[test]
fn readers_are_notified_in_arrival_order() {
    let mut process = started(vec![]);
    process.handle(Operation::ThreadSpawn(0, vec![])).unwrap();
    process.handle(Operation::ThreadSpawn(0, vec![])).unwrap();
    process.handle(Operation::ThreadSpawn(0, vec![])).unwrap();
    process.handle(Operation::unbound(3, 5)).unwrap();
    process.handle(Operation::unbound(1, 5)).unwrap();
    process.handle(Operation::unbound(2, 5)).unwrap();
    assert_eq!(process.pending_readers(5), vec![3, 1, 2]);
    assert_eq!(
        process.handle(Operation::SynchVar(0, Value::Bound(5, Payload::Bool(true)))),
        Ok(vec![
            Action::Notify(3, Operation::SynchVar(0, Value::Bound(5, Payload::Bool(true)))),
            Action::Notify(1, Operation::SynchVar(0, Value::Bound(5, Payload::Bool(true)))),
            Action::Notify(2, Operation::SynchVar(0, Value::Bound(5, Payload::Bool(true)))),
        ])
    );
}

#[test]
fn readers_that_are_gone_are_passed_over() {
    let mut process = started(vec![]);
    process.handle(Operation::ThreadSpawn(0, vec![])).unwrap();
    process.handle(Operation::ThreadSpawn(0, vec![])).unwrap();
    process.handle(Operation::unbound(1, 5)).unwrap();
    process.handle(Operation::unbound(2, 5)).unwrap();
    assert_eq!(process.handle(Operation::ThreadTerminate(1)), Ok(vec![Action::Close(1)]));
    assert_eq!(
        process.handle(Operation::integer(0, 5, 9)),
        Ok(vec![Action::Notify(2, announcement(0, 5, 9))])
    );
}

#[test]
fn a_second_bind_is_refused_and_changes_nothing() {
    let mut process = started(vec![]);
    assert_eq!(process.handle(Operation::integer(0, 7, 42)), Ok(vec![]));
    assert_eq!(
        process.handle(Operation::integer(0, 7, 43)),
        Err(SchedulerError::DuplicateBind(7))
    );
    assert_eq!(
        process.handle(Operation::integer(0, 7, 42)),
        Err(SchedulerError::DuplicateBind(7))
    );
    assert_eq!(process.binding(7), Some(Value::Bound(7, Payload::Int(42))));
    assert!(process.is_live(0));
}

#[test]
fn lazy_producer_is_told_of_the_first_demand_only() {
    let mut process = started(vec![]);
    process.handle(Operation::ThreadSpawn(0, vec![])).unwrap();
    process.handle(Operation::ThreadSpawn(0, vec![])).unwrap();
    assert_eq!(process.handle(Operation::WaitNeeded(1, 4)), Ok(vec![]));
    assert_eq!(process.lazy_producer(4), Some(1));
    assert_eq!(process.handle(Operation::integer(0, 5, 1)), Ok(vec![]));
    assert_eq!(process.handle(Operation::unbound(0, 6)), Ok(vec![]));
    assert_eq!(process.lazy_producer(4), Some(1));
    assert_eq!(
        process.handle(Operation::unbound(2, 4)),
        Ok(vec![Action::Notify(1, Operation::unbound(2, 4))])
    );
    assert_eq!(process.lazy_producer(4), None);
    assert_eq!(process.handle(Operation::unbound(0, 4)), Ok(vec![]));
    assert_eq!(process.pending_readers(4), vec![2, 0]);
}

#[test]
fn two_lazy_declarations_keep_the_first() {
    let mut process = started(vec![]);
    process.handle(Operation::ThreadSpawn(0, vec![])).unwrap();
    process.handle(Operation::ThreadSpawn(0, vec![])).unwrap();
    process.handle(Operation::ThreadSpawn(0, vec![])).unwrap();
    assert_eq!(process.handle(Operation::WaitNeeded(1, 4)), Ok(vec![]));
    assert_eq!(process.handle(Operation::WaitNeeded(2, 4)), Ok(vec![]));
    assert_eq!(process.lazy_producer(4), Some(1));
    assert_eq!(
        process.handle(Operation::unbound(3, 4)),
        Ok(vec![Action::Notify(1, Operation::unbound(3, 4))])
    );
    assert_eq!(process.lazy_producer(4), None);
    assert_eq!(process.pending_readers(4), vec![3]);
}

#[test]
fn demand_of_a_bound_variable_answers_and_demands() {
    let mut process = started(vec![]);
    process.handle(Operation::ThreadSpawn(0, vec![])).unwrap();
    process.handle(Operation::ThreadSpawn(0, vec![])).unwrap();
    process.handle(Operation::WaitNeeded(1, 4)).unwrap();
    process.handle(Operation::integer(0, 4, 3)).unwrap();
    assert_eq!(
        process.handle(Operation::unbound(2, 4)),
        Ok(vec![
            Action::Notify(2, announcement(0, 4, 3)),
            Action::Notify(1, Operation::unbound(2, 4)),
        ])
    );
}

#[test]
fn run_ends_with_the_last_termination() {
    let mut process = started(vec![]);
    process.handle(Operation::ThreadSpawn(0, vec![])).unwrap();
    process.handle(Operation::ThreadSpawn(0, vec![])).unwrap();
    assert_eq!(process.handle(Operation::ThreadTerminate(1)), Ok(vec![Action::Close(1)]));
    assert!(!process.is_finished());
    assert_eq!(process.handle(Operation::ThreadTerminate(1)), Ok(vec![]));
    assert_eq!(process.handle(Operation::ThreadTerminate(0)), Ok(vec![Action::Close(0)]));
    assert!(!process.is_finished());
    assert_eq!(
        process.handle(Operation::ThreadTerminate(2)),
        Ok(vec![Action::Close(2), Action::Halt])
    );
    assert!(process.is_finished());
}

#[test]
fn closed_channel_ends_the_run() {
    let mut process = started(vec![]);
    assert_eq!(process.step(None), Ok(vec![Action::Halt]));
    assert!(process.is_live(0));
    assert_eq!(process.step(Some(Operation::unbound(0, 1))), Ok(vec![]));
    assert_eq!(process.pending_readers(1), vec![0]);
}

#[test]
fn spawned_reader_gets_the_later_binding() {
    // Activity A spawns activity B; B asks for variable 7; A binds it to 42.
    let mut process = Process::new(0, vec![
        Operation::ThreadSpawn(0, vec![Operation::unbound(1, 7)]),
        Operation::integer(0, 7, 42),
    ]);
    let mut a = match process.start().unwrap().pop() {
        Some(Action::Spawn(id, program)) => Thread::new(id, program),
        other => panic!("{:?}", other),
    };
    assert_eq!(a.thread_id(), 0);

    let stepped = a.werbolg_exec();
    let out = a.advance(stepped);
    assert!(!out.exit);
    assert!(a.is_running());
    let mut b = match process.handle(out.message).unwrap().pop() {
        Some(Action::Spawn(id, program)) => Thread::new(id, program),
        other => panic!("{:?}", other),
    };
    assert_eq!(b.thread_id(), 1);

    let stepped = b.werbolg_exec();
    let out = b.advance(stepped);
    assert_eq!(out, Outgoing { message: Operation::unbound(1, 7), exit: false });
    assert!(!b.is_running());
    assert_eq!(b.awaited_variable(), Some(7));
    assert_eq!(process.handle(out.message), Ok(vec![]));

    let stepped = a.werbolg_exec();
    let out = a.advance(stepped);
    assert_eq!(out, Outgoing { message: Operation::integer(0, 7, 42), exit: false });
    let mut actions = process.handle(out.message).unwrap();
    assert_eq!(actions, vec![Action::Notify(1, announcement(0, 7, 42))]);
    match actions.pop() {
        Some(Action::Notify(to, notification)) => {
            assert_eq!(to, b.thread_id());
            assert!(!b.deliver(Some(notification)));
        }
        other => panic!("{:?}", other),
    }
    assert!(b.is_running());

    let stepped = a.werbolg_exec();
    assert_eq!(stepped, None);
    let out = a.advance(stepped);
    assert_eq!(out, Outgoing { message: Operation::ThreadTerminate(0), exit: true });
    assert_eq!(process.handle(out.message), Ok(vec![Action::Close(0)]));
    assert!(!process.is_finished());

    let stepped = b.werbolg_exec();
    let out = b.advance(stepped);
    assert_eq!(out, Outgoing { message: Operation::ThreadTerminate(1), exit: true });
    assert_eq!(process.handle(out.message), Ok(vec![Action::Close(1), Action::Halt]));
    assert!(process.is_finished());
}

#[test]
fn bindings_do_not_depend_on_the_order_of_arrival() {
    let mut first = started(vec![]);
    first.handle(Operation::integer(0, 1, 10)).unwrap();
    first.handle(Operation::unbound(0, 2)).unwrap();
    first.handle(Operation::integer(0, 2, 20)).unwrap();
    first.handle(Operation::WaitNeeded(0, 3)).unwrap();

    let mut second = started(vec![]);
    second.handle(Operation::WaitNeeded(0, 3)).unwrap();
    second.handle(Operation::integer(0, 2, 20)).unwrap();
    second.handle(Operation::unbound(0, 2)).unwrap();
    second.handle(Operation::integer(0, 1, 10)).unwrap();

    for id in 0..5 {
        assert_eq!(first.binding(id), second.binding(id));
    }
    assert_eq!(first.binding(1), Some(Value::Bound(1, Payload::Int(10))));
    assert_eq!(first.binding(2), Some(Value::Bound(2, Payload::Int(20))));
    assert_eq!(first.binding(3), None);
}

#[test]
fn thread_steps_its_list_in_order() {
    let mut thread = Thread::new(4, vec![Operation::integer(4, 1, 1), Operation::unbound(4, 2)]);
    assert_eq!(thread.werbolg_exec(), Some(Operation::integer(4, 1, 1)));
    assert_eq!(thread.werbolg_exec(), Some(Operation::unbound(4, 2)));
    assert_eq!(thread.werbolg_exec(), None);
    assert_eq!(thread.werbolg_exec(), None);
    assert!(thread.is_running());
}

#[test]
fn thread_sends_what_its_program_yields() {
    let mut thread = Thread::new(4, vec![]);
    assert_eq!(
        thread.advance(Some(Operation::integer(9, 1, 1))),
        Outgoing { message: Operation::integer(9, 1, 1), exit: false }
    );
    assert!(thread.is_running());
    assert_eq!(
        thread.advance(Some(Operation::ThreadSpawn(0, vec![Operation::unbound(1, 1)]))),
        Outgoing { message: Operation::ThreadSpawn(0, vec![Operation::unbound(1, 1)]), exit: false }
    );
    assert!(thread.is_running());
    assert_eq!(
        thread.advance(Some(Operation::ThreadTerminate(77))),
        Outgoing { message: Operation::ThreadTerminate(4), exit: true }
    );
    assert_eq!(
        thread.advance(None),
        Outgoing { message: Operation::ThreadTerminate(4), exit: true }
    );
}

#[test]
fn waiting_thread_ignores_other_notifications() {
    let mut thread = Thread::new(4, vec![]);
    thread.advance(Some(Operation::unbound(4, 2)));
    assert!(!thread.is_running());
    assert_eq!(thread.awaited_variable(), Some(2));
    assert_eq!(thread.lazy_variable(), None);
    assert!(!thread.deliver(Some(announcement(0, 3, 1))));
    assert!(!thread.is_running());
    assert!(!thread.deliver(Some(Operation::unbound(0, 2))));
    assert!(!thread.is_running());
    assert!(!thread.deliver(Some(Operation::WaitNeeded(0, 2))));
    assert!(!thread.is_running());
    assert!(!thread.deliver(Some(Operation::SynchVar(0, Value::Bound(2, Payload::Unit)))));
    assert!(thread.is_running());
    assert_eq!(thread.awaited_variable(), None);
}

#[test]
fn lazy_thread_waits_for_the_demand() {
    let mut thread = Thread::new(4, vec![]);
    assert_eq!(
        thread.advance(Some(Operation::WaitNeeded(4, 2))),
        Outgoing { message: Operation::WaitNeeded(4, 2), exit: false }
    );
    assert!(!thread.is_running());
    assert_eq!(thread.lazy_variable(), Some(2));
    assert!(!thread.deliver(Some(announcement(0, 3, 1))));
    assert!(!thread.deliver(Some(Operation::unbound(1, 3))));
    assert!(!thread.deliver(Some(Operation::ThreadTerminate(1))));
    assert!(!thread.is_running());
    assert!(!thread.deliver(Some(Operation::unbound(1, 2))));
    assert!(thread.is_running());
    assert_eq!(thread.lazy_variable(), None);
}

#[test]
fn lazy_thread_wakes_on_a_binding_of_its_variable_too() {
    let mut thread = Thread::new(4, vec![]);
    thread.advance(Some(Operation::WaitNeeded(4, 2)));
    assert!(!thread.deliver(Some(announcement(0, 2, 1))));
    assert!(thread.is_running());
}

#[test]
fn closed_channel_ends_a_waiting_thread() {
    let mut thread = Thread::new(4, vec![]);
    thread.advance(Some(Operation::unbound(4, 2)));
    assert!(thread.deliver(None));
    assert!(!thread.is_running());
}

#[test]
fn machine_values_become_announcements() {
    let thread = Thread::new(6, vec![]);
    assert_eq!(thread.announce(ThreadValue::Integer(2, 5)), Some(Operation::integer(6, 2, 5)));
    assert_eq!(thread.announce(ThreadValue::Unbound(2)), Some(Operation::unbound(6, 2)));
    assert_eq!(thread.announce(ThreadValue::Unit), None);
}

#[test]
fn lazy_producer_works_only_after_a_demand() {
    // The producer binds variable 1 only after somebody asked for it.
    let mut process = started(vec![]);
    process.handle(Operation::ThreadSpawn(0, vec![])).unwrap();
    let mut producer = Thread::new(1, vec![Operation::WaitNeeded(1, 1), Operation::integer(1, 1, 8)]);
    let mut work_done = 0;

    let stepped = producer.werbolg_exec();
    let out = producer.advance(stepped);
    process.handle(out.message).unwrap();
    assert!(!producer.is_running());

    let actions = process.handle(Operation::integer(0, 9, 9)).unwrap();
    assert_eq!(actions, vec![]);
    assert!(!producer.is_running());
    assert_eq!(work_done, 0);

    let mut actions = process.handle(Operation::unbound(0, 1)).unwrap();
    match actions.pop() {
        Some(Action::Notify(1, demand)) => {
            assert!(!producer.deliver(Some(demand)));
        }
        other => panic!("{:?}", other),
    }
    assert!(producer.is_running());
    let stepped = producer.werbolg_exec();
    let out = producer.advance(stepped);
    work_done += 1;
    assert_eq!(
        process.handle(out.message),
        Ok(vec![Action::Notify(0, announcement(1, 1, 8))])
    );
    assert_eq!(work_done, 1);
}

#[test]
fn spawn_fails_when_the_thread_ids_are_used_up() {
    let mut process = Process::with_thread_ids_from(0, u64::MAX, vec![]);
    assert_eq!(process.start(), Err(SchedulerError::ThreadIdsExhausted));
    assert!(process.is_finished());

    let mut process = Process::with_thread_ids_from(0, u64::MAX - 1, vec![]);
    assert_eq!(process.start(), Ok(vec![Action::Spawn(u64::MAX - 1, vec![])]));
    assert_eq!(
        process.handle(Operation::ThreadSpawn(u64::MAX - 1, vec![])),
        Err(SchedulerError::ThreadIdsExhausted)
    );
    assert!(process.is_live(u64::MAX - 1));
    assert_eq!(process.handle(Operation::unbound(u64::MAX - 1, 1)), Ok(vec![]));
}
