use regbridge::message::{Command, Register, Registers, Update};
use regbridge::runner::{HardwareError, HardwareOp, Runner, RunnerEvent, HALT_TIMEOUT_MS};
use regbridge::session::MemorySession;

fn watch(runner: &mut Runner, addresses: Vec<u32>) {
    let updates = runner.apply(RunnerEvent::Command(Command::Watch(addresses)), Ok(vec![]));
    assert_eq!(updates, Ok(vec![]));
}

fn drive(runner: &mut Runner, session: &mut MemorySession, event: RunnerEvent) -> Vec<Update> {
    let ops = runner.operations(&event);
    let readings = session.perform_all(&ops);
    runner.apply(event, Ok(readings)).unwrap()
}

fn registers(entries: Vec<(u32, u32)>) -> Update {
    Update::Registers(Registers {
        registers: entries.into_iter().map(|(address, value)| Register { address, value }).collect(),
    })
}

#[test]
fn new_runner_watches_nothing_and_runs() {
    let runner = Runner::new();
    assert!(runner.watch().is_empty());
    assert!(!runner.is_halted());
    assert_eq!(runner.interval(), None);
}

#[test]
fn halt_timeout_is_one_second() {
    assert_eq!(HALT_TIMEOUT_MS, 1000);
}

#[test]
fn watch_creates_entries_with_value_zero_and_does_not_poll() {
    let mut runner = Runner::new();
    let event = RunnerEvent::Command(Command::Watch(vec![4096, 8196]));
    assert!(runner.operations(&event).is_empty());
    assert_eq!(runner.apply(event, Ok(vec![])), Ok(vec![]));
    assert_eq!(
        runner.watch(),
        &vec![Register { address: 4096, value: 0 }, Register { address: 8196, value: 0 }]
    );
}

#[test]
fn watch_replaces_the_whole_list() {
    let mut runner = Runner::new();
    let mut session = MemorySession::new();
    watch(&mut runner, vec![1, 2]);
    watch(&mut runner, vec![3]);
    assert_eq!(runner.operations(&RunnerEvent::Tick), vec![HardwareOp::Read32 { address: 3 }]);
    assert_eq!(drive(&mut runner, &mut session, RunnerEvent::Tick), vec![registers(vec![(3, 0)])]);
    assert_eq!(
        drive(&mut runner, &mut session, RunnerEvent::Command(Command::Halt)),
        vec![Update::Halted, registers(vec![(3, 0)])]
    );
}

#[test]
fn watch_forgets_the_values_polled_before() {
    let mut runner = Runner::new();
    let mut session = MemorySession::new();
    session.write32(8, 5);
    watch(&mut runner, vec![8]);
    drive(&mut runner, &mut session, RunnerEvent::Tick);
    assert_eq!(runner.watch(), &vec![Register { address: 8, value: 5 }]);
    watch(&mut runner, vec![8]);
    assert_eq!(runner.watch(), &vec![Register { address: 8, value: 0 }]);
}

#[test]
fn duplicate_addresses_are_polled_twice() {
    let mut runner = Runner::new();
    let mut session = MemorySession::new();
    session.write32(8, 5);
    watch(&mut runner, vec![8, 8]);
    assert_eq!(
        runner.operations(&RunnerEvent::Tick),
        vec![HardwareOp::Read32 { address: 8 }, HardwareOp::Read32 { address: 8 }]
    );
    assert_eq!(
        drive(&mut runner, &mut session, RunnerEvent::Tick),
        vec![registers(vec![(8, 5), (8, 5)])]
    );
}

#[test]
fn set_register_plans_a_single_write() {
    let mut runner = Runner::new();
    watch(&mut runner, vec![4096]);
    let event = RunnerEvent::Command(Command::SetRegister(Register { address: 4096, value: 7 }));
    assert_eq!(
        runner.operations(&event),
        vec![HardwareOp::Write32 { address: 4096, value: 7 }]
    );
    assert_eq!(runner.apply(event, Ok(vec![])), Ok(vec![]));
    assert_eq!(runner.watch(), &vec![Register { address: 4096, value: 0 }]);
}

#[test]
fn set_register_shows_in_the_next_poll() {
    let mut runner = Runner::new();
    let mut session = MemorySession::new();
    watch(&mut runner, vec![4096, 8196]);
    let set = RunnerEvent::Command(Command::SetRegister(Register { address: 4096, value: 7 }));
    assert_eq!(drive(&mut runner, &mut session, set), vec![]);
    assert_eq!(
        drive(&mut runner, &mut session, RunnerEvent::Tick),
        vec![registers(vec![(4096, 7), (8196, 0)])]
    );
}

#[test]
fn halt_plans_the_halt_and_then_the_reads() {
    let mut runner = Runner::new();
    watch(&mut runner, vec![1, 2]);
    assert_eq!(
        runner.operations(&RunnerEvent::Command(Command::Halt)),
        vec![
            HardwareOp::Halt { timeout_ms: 1000 },
            HardwareOp::Read32 { address: 1 },
            HardwareOp::Read32 { address: 2 },
        ]
    );
}

#[test]
fn halt_emits_halted_and_then_the_snapshot() {
    let mut runner = Runner::new();
    watch(&mut runner, vec![1, 2]);
    let updates = runner.apply(RunnerEvent::Command(Command::Halt), Ok(vec![10, 20]));
    assert_eq!(updates, Ok(vec![Update::Halted, registers(vec![(1, 10), (2, 20)])]));
    assert!(runner.is_halted());
    assert_eq!(
        runner.watch(),
        &vec![Register { address: 1, value: 10 }, Register { address: 2, value: 20 }]
    );
}

#[test]
fn halt_with_an_empty_watch_list_emits_an_empty_snapshot() {
    let mut runner = Runner::new();
    let updates = runner.apply(RunnerEvent::Command(Command::Halt), Ok(vec![]));
    assert_eq!(updates, Ok(vec![Update::Halted, registers(vec![])]));
}

#[test]
fn run_resumes_and_emits_running() {
    let mut runner = Runner::new();
    let mut session = MemorySession::new();
    drive(&mut runner, &mut session, RunnerEvent::Command(Command::Halt));
    assert!(runner.is_halted());
    assert!(session.is_halted());
    let run = RunnerEvent::Command(Command::Run);
    assert_eq!(runner.operations(&run), vec![HardwareOp::Run]);
    assert_eq!(drive(&mut runner, &mut session, run), vec![Update::Running]);
    assert!(!runner.is_halted());
    assert!(!session.is_halted());
}

#[test]
fn tick_emits_one_snapshot_of_the_whole_list() {
    let mut runner = Runner::new();
    watch(&mut runner, vec![1, 2, 3]);
    let updates = runner.apply(RunnerEvent::Tick, Ok(vec![7, 8, 9]));
    assert_eq!(updates, Ok(vec![registers(vec![(1, 7), (2, 8), (3, 9)])]));
    assert!(!runner.is_halted());
}

#[test]
fn hardware_errors_come_back_and_change_nothing() {
    let mut runner = Runner::new();
    watch(&mut runner, vec![1]);
    runner.apply(RunnerEvent::Tick, Ok(vec![5])).unwrap();
    for error in [HardwareError::Halt, HardwareError::Run, HardwareError::Read, HardwareError::Write] {
        assert_eq!(runner.apply(RunnerEvent::Command(Command::Halt), Err(error)), Err(error));
        assert_eq!(runner.apply(RunnerEvent::Command(Command::Run), Err(error)), Err(error));
        assert_eq!(runner.apply(RunnerEvent::Tick, Err(error)), Err(error));
        assert_eq!(
            runner.apply(
                RunnerEvent::Command(Command::SetRegister(Register { address: 1, value: 2 })),
                Err(error)
            ),
            Err(error)
        );
        assert_eq!(runner.apply(RunnerEvent::Command(Command::Watch(vec![9])), Err(error)), Err(error));
    }
    assert_eq!(runner.watch(), &vec![Register { address: 1, value: 5 }]);
    assert!(!runner.is_halted());
}

#[test]
fn snapshot_with_missing_or_extra_readings_is_a_failed_read() {
    let mut runner = Runner::new();
    watch(&mut runner, vec![1, 2]);
    assert_eq!(runner.apply(RunnerEvent::Tick, Ok(vec![5])), Err(HardwareError::Read));
    assert_eq!(runner.apply(RunnerEvent::Tick, Ok(vec![5, 6, 7])), Err(HardwareError::Read));
    assert_eq!(
        runner.apply(RunnerEvent::Command(Command::Halt), Ok(vec![])),
        Err(HardwareError::Read)
    );
    assert!(!runner.is_halted());
    assert_eq!(
        runner.watch(),
        &vec![Register { address: 1, value: 0 }, Register { address: 2, value: 0 }]
    );
}

#[test]
fn update_interval_sets_the_poll_interval() {
    let mut runner = Runner::new();
    assert!(!runner.poll_due(0));
    assert!(!runner.poll_due(u64::MAX));
    let event = RunnerEvent::Command(Command::UpdateInterval(250));
    assert!(runner.operations(&event).is_empty());
    assert_eq!(runner.apply(event, Ok(vec![])), Ok(vec![]));
    assert_eq!(runner.interval(), Some(250));
    assert!(!runner.poll_due(249));
    assert!(runner.poll_due(250));
    assert!(runner.poll_due(251));
}

#[test]
fn memory_session_reads_back_what_was_written() {
    let mut session = MemorySession::new();
    assert_eq!(session.read32(4096), 0);
    session.write32(4096, 7);
    session.write32(4096, 9);
    session.write32(8196, 1);
    assert_eq!(session.read32(4096), 9);
    assert_eq!(session.read32(8196), 1);
    assert_eq!(session.read32(0), 0);
}

#[test]
fn memory_session_performs_operations_in_order() {
    let mut session = MemorySession::new();
    let readings = session.perform_all(&vec![
        HardwareOp::Read32 { address: 4 },
        HardwareOp::Write32 { address: 4, value: 1 },
        HardwareOp::Halt { timeout_ms: 1000 },
        HardwareOp::Read32 { address: 4 },
        HardwareOp::Write32 { address: 4, value: 2 },
        HardwareOp::Read32 { address: 4 },
    ]);
    assert_eq!(readings, vec![0, 1, 2]);
    assert!(session.is_halted());
    assert_eq!(session.perform(HardwareOp::Run), None);
    assert!(!session.is_halted());
    assert_eq!(session.perform(HardwareOp::Read32 { address: 4 }), Some(2));
}

#[test]
fn every_operation_fails_as_its_own_kind() {
    assert_eq!(HardwareOp::Halt { timeout_ms: 1000 }.error_kind(), HardwareError::Halt);
    assert_eq!(HardwareOp::Run.error_kind(), HardwareError::Run);
    assert_eq!(HardwareOp::Read32 { address: 4 }.error_kind(), HardwareError::Read);
    assert_eq!(HardwareOp::Write32 { address: 4, value: 1 }.error_kind(), HardwareError::Write);
}
