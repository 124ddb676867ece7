use rustos::kernel::process::scheduler::Scheduler;
use rustos::kernel::process::state::{ScheduledProcess, State};
use rustos::kernel::process::ProcessId;
use rustos::kernel::scheduling::fair_policy::FairPolicy;
use rustos::kernel::scheduling::global::{
    SchedulerInformation, SwitchOutcome, FAIR, ROUND_ROBIN, TICK,
};
use rustos::kernel::scheduling::policy::{Policy, PolicyInformation};
use rustos::kernel::scheduling::proportional_share::ProportionalShareScheduler;
use rustos::kernel::scheduling::round_robin_policy::RoundRobinPolicy;
use rustos::kernel::scheduling::scheduler::{SchedulerError, SwitchCondition, SwitchTrigger};
use rustos::kernel::traps::frame::TrapFrame;

/// The trap frame of process `pid`, with `x0` holding `x0`.
fn frame(pid: ProcessId, x0: u64) -> TrapFrame {
    let mut tf = TrapFrame::zeroed();
    tf.tpidr = pid.0;
    tf.xs[0] = x0;
    tf
}

const MS: u128 = 1_000_000;

#[test]
fn switch_conditions_accept_what_was_added() {
    let condition = SwitchCondition::new().or(SwitchTrigger::Timer);
    assert!(condition.matches(SwitchTrigger::Timer));
    assert!(!condition.matches(SwitchTrigger::Yield));
    assert!(!SwitchCondition::new().matches(SwitchTrigger::Force));
    let both = condition.or(SwitchTrigger::Force);
    assert!(both.matches(SwitchTrigger::Force) && both.matches(SwitchTrigger::Timer));
    assert_eq!(usize::from(SwitchTrigger::Timer), 2);
    assert_eq!(usize::from(SwitchTrigger::Force), 0);
}

#[test]
fn round_robin_policy_takes_turns() {
    let mut policy = RoundRobinPolicy::new(TICK);
    policy.insert(ProcessId(1));
    policy.insert(ProcessId(2));
    let advice = policy.advise().unwrap();
    assert_eq!(advice.process_id, ProcessId(2));
    assert_eq!(advice.runtime, Some(TICK));
    assert!(advice.stop_condition.matches(SwitchTrigger::Yield));
    assert!(!advice.stop_condition.matches(SwitchTrigger::Timer));
    policy.inform(ProcessId(2), &PolicyInformation::StartRunning);
    assert_eq!(policy.advise().unwrap().process_id, ProcessId(1));
    policy.inform(ProcessId(2), &PolicyInformation::ScheduledOut(TICK, SwitchTrigger::Yield, false));
    policy.inform(ProcessId(1), &PolicyInformation::StartRunning);
    policy.inform(ProcessId(1), &PolicyInformation::ScheduledOut(TICK, SwitchTrigger::Yield, true));
    assert_eq!(policy.advise().unwrap().process_id, ProcessId(2));
    policy.inform(ProcessId(2), &PolicyInformation::StartRunning);
    assert!(policy.advise().is_none());
    policy.inform(ProcessId(1), &PolicyInformation::DoneWaiting);
    assert_eq!(policy.advise().unwrap().process_id, ProcessId(1));
}

#[test]
fn fair_policy_prefers_the_longest_runtime_and_shrinks_slices() {
    let mut policy = FairPolicy::new(48 * MS, 6 * MS);
    assert!(policy.advise().is_none());
    policy.insert(ProcessId(1));
    policy.insert(ProcessId(2));
    let advice = policy.advise().unwrap();
    assert_eq!(advice.process_id, ProcessId(1));
    assert_eq!(advice.runtime, Some(24 * MS));
    assert!(advice.stop_condition.matches(SwitchTrigger::Timer));
    assert!(advice.stop_condition.matches(SwitchTrigger::Yield));
    assert!(!advice.stop_condition.matches(SwitchTrigger::Force));
    policy.inform(ProcessId(1), &PolicyInformation::StartRunning);
    policy.inform(ProcessId(1), &PolicyInformation::ScheduledOut(3 * MS, SwitchTrigger::Timer, false));
    assert_eq!(policy.advise().unwrap().process_id, ProcessId(1));
    policy.remove(ProcessId(1));
    let advice = policy.advise().unwrap();
    assert_eq!(advice.process_id, ProcessId(2));
    assert_eq!(advice.runtime, Some(48 * MS));
}

#[test]
fn fair_policy_slices_never_go_below_the_granularity() {
    let mut policy = FairPolicy::new(48 * MS, 6 * MS);
    for i in 0..10 {
        policy.insert(ProcessId(i));
    }
    assert_eq!(policy.advise().unwrap().runtime, Some(6 * MS));
}

#[test]
fn scheduler_with_the_fair_policy_reruns_the_longest_running() {
    let mut scheduler = SchedulerInformation::new();
    assert_eq!(scheduler.add(ScheduledProcess::new(None)), ProcessId(0));
    assert_eq!(scheduler.add(ScheduledProcess::new(None)), ProcessId(1));
    let mut tf = TrapFrame::zeroed();
    assert_eq!(scheduler.schedule_in(0, &mut tf), Some((ProcessId(0), Some(24 * MS))));
    assert_eq!(tf.tpidr, 0);
    assert_eq!(scheduler.process_state(ProcessId(0)), Some(State::Running));
    assert_eq!(
        scheduler.schedule_out(&frame(ProcessId(0), 42), SwitchTrigger::Yield, State::Ready, 10 * MS),
        SwitchOutcome::SwitchedOut
    );
    assert_eq!(scheduler.process_state(ProcessId(0)), Some(State::Ready));
    let mut tf = TrapFrame::zeroed();
    assert_eq!(scheduler.schedule_in(10 * MS, &mut tf), Some((ProcessId(0), Some(24 * MS))));
    assert_eq!(tf, frame(ProcessId(0), 42));
}

#[test]
fn scheduler_with_round_robin_takes_turns_and_skips_waiting_processes() {
    let mut scheduler = SchedulerInformation::new();
    scheduler.set_active_policy(ROUND_ROBIN);
    let first = scheduler.add(ScheduledProcess::new(None));
    let second = scheduler.add(ScheduledProcess::new(None));
    let mut tf = TrapFrame::zeroed();
    assert_eq!(scheduler.schedule_in(0, &mut tf), Some((second, Some(TICK))));
    assert_eq!(
        scheduler.schedule_out(&frame(second, 2), SwitchTrigger::Timer, State::Ready, TICK),
        SwitchOutcome::ContinueRearmTimer
    );
    assert_eq!(
        scheduler.schedule_out(&frame(second, 2), SwitchTrigger::Yield, State::Ready, TICK),
        SwitchOutcome::SwitchedOut
    );
    assert_eq!(scheduler.schedule_in(TICK, &mut tf), Some((first, Some(TICK))));
    assert_eq!(tf, frame(first, 0));
    assert_eq!(
        scheduler.schedule_out(&frame(first, 1), SwitchTrigger::Force, State::Waiting, 2 * TICK),
        SwitchOutcome::SwitchedOut
    );
    assert_eq!(scheduler.schedule_in(2 * TICK, &mut tf), Some((second, Some(TICK))));
    assert_eq!(tf, frame(second, 2));
    assert_eq!(
        scheduler.schedule_out(&frame(second, 2), SwitchTrigger::Force, State::Dead, 3 * TICK),
        SwitchOutcome::SwitchedOut
    );
    assert_eq!(scheduler.process_state(second), None);
    let mut untouched = frame(ProcessId(9), 9);
    assert_eq!(scheduler.schedule_in(3 * TICK, &mut untouched), None);
    assert_eq!(untouched, frame(ProcessId(9), 9));
    assert!(scheduler.wake(first));
    assert!(!scheduler.wake(first));
    assert_eq!(scheduler.schedule_in(3 * TICK, &mut tf), Some((first, Some(TICK))));
    assert_eq!(tf, frame(first, 1));
}

#[test]
fn a_dying_process_is_recorded_by_its_parent() {
    let mut scheduler = SchedulerInformation::new();
    scheduler.set_active_policy(ROUND_ROBIN);
    let parent = scheduler.add(ScheduledProcess::new(None));
    let child = scheduler.add(ScheduledProcess::new(Some(parent)));
    let mut tf = TrapFrame::zeroed();
    assert_eq!(scheduler.schedule_in(0, &mut tf), Some((child, Some(TICK))));
    scheduler.schedule_out(&tf, SwitchTrigger::Force, State::Dead, 1);
    assert_eq!(scheduler.dead_children(parent), Some(vec![child]));
    assert_eq!(scheduler.dead_children(child), None);
}

#[test]
fn a_refused_trigger_changes_nothing() {
    let mut scheduler = SchedulerInformation::new();
    let pid = scheduler.add(ScheduledProcess::new(None));
    let mut tf = TrapFrame::zeroed();
    scheduler.schedule_in(0, &mut tf);
    assert_eq!(
        scheduler.schedule_out(&frame(pid, 0), SwitchTrigger::Yield, State::Ready, 5),
        SwitchOutcome::SwitchedOut
    );
    assert_eq!(scheduler.schedule_in(5, &mut tf), Some((pid, Some(48 * MS))));
    let mut rr = SchedulerInformation::new();
    rr.set_active_policy(ROUND_ROBIN);
    let p = rr.add(ScheduledProcess::new(None));
    rr.schedule_in(0, &mut tf);
    assert_eq!(rr.schedule_out(&frame(p, 0), SwitchTrigger::Timer, State::Ready, 1), SwitchOutcome::ContinueRearmTimer);
    assert_eq!(rr.process_state(p), Some(State::Running));
    let _ = FAIR;
}

#[test]
fn process_ids_count_up_from_zero() {
    let mut scheduler = SchedulerInformation::new();
    assert_eq!(scheduler.allocate_process_id(), ProcessId(0));
    assert_eq!(scheduler.allocate_process_id(), ProcessId(1));
    assert_eq!(scheduler.add(ScheduledProcess::new(None)), ProcessId(2));
}

#[test]
fn queue_scheduler_runs_the_first_ready_process() {
    let mut scheduler = Scheduler::new();
    assert_eq!(scheduler.add(ScheduledProcess::new(None)), Some(ProcessId(0)));
    assert_eq!(scheduler.add(ScheduledProcess::new(None)), Some(ProcessId(1)));
    let mut tf = TrapFrame::zeroed();
    assert_eq!(scheduler.switch_to(&mut tf), Some(ProcessId(0)));
    assert_eq!(tf, frame(ProcessId(0), 0));
    assert!(scheduler.schedule_out(State::Ready, &frame(ProcessId(0), 10)));
    assert_eq!(scheduler.switch_to(&mut tf), Some(ProcessId(1)));
    assert_eq!(tf, frame(ProcessId(1), 0));
    assert!(scheduler.schedule_out(State::Waiting, &frame(ProcessId(1), 11)));
    assert_eq!(scheduler.switch_to(&mut tf), Some(ProcessId(0)));
    assert_eq!(tf, frame(ProcessId(0), 10));
    assert!(!scheduler.schedule_out(State::Ready, &frame(ProcessId(7), 0)));
}

#[test]
fn queue_scheduler_kill_drops_the_process() {
    let mut scheduler = Scheduler::new();
    scheduler.add(ScheduledProcess::new(None));
    let mut tf = TrapFrame::zeroed();
    assert_eq!(scheduler.switch_to(&mut tf), Some(ProcessId(0)));
    assert_eq!(scheduler.kill(&tf), Some(ProcessId(0)));
    let mut untouched = frame(ProcessId(3), 3);
    assert_eq!(scheduler.switch_to(&mut untouched), None);
    assert_eq!(untouched, frame(ProcessId(3), 3));
    assert_eq!(scheduler.kill(&tf), None);
    assert_eq!(scheduler.new_pid(), Some(ProcessId(1)));
}

#[test]
fn proportional_share_runs_the_largest_virtual_runtime() {
    let mut scheduler = ProportionalShareScheduler::new();
    let mut tf = TrapFrame::zeroed();
    assert_eq!(scheduler.schedule_in(0, &mut tf).err(), Some(SchedulerError::NoRunnableProcess));
    scheduler.add(ProcessId(0), ScheduledProcess::new(None));
    scheduler.add(ProcessId(1), ScheduledProcess::new(None));
    assert_eq!(scheduler.schedule_in(0, &mut tf).ok(), Some((ProcessId(0), 48 * MS)));
    let out = scheduler.schedule_out(&frame(ProcessId(0), 5), State::Ready, 2 * MS).ok().unwrap();
    assert_eq!(out.virtual_runtime, 2000);
    assert_eq!(out.process.state, State::Ready);
    assert_eq!(out.process.context, frame(ProcessId(0), 5));
    assert_eq!(
        scheduler.schedule_out(&frame(ProcessId(0), 5), State::Ready, 3 * MS).err(),
        Some(SchedulerError::ProcessNotFound)
    );
    assert_eq!(scheduler.schedule_in(3 * MS, &mut tf).ok(), Some((ProcessId(1), 48 * MS)));
}

#[test]
fn proportional_share_switch_requeues_or_drops() {
    let mut scheduler = ProportionalShareScheduler::new();
    scheduler.add(ProcessId(0), ScheduledProcess::new(None));
    scheduler.add(ProcessId(1), ScheduledProcess::new(Some(ProcessId(0))));
    let mut tf = TrapFrame::zeroed();
    assert_eq!(scheduler.schedule_in(0, &mut tf).ok(), Some((ProcessId(0), 48 * MS)));
    let mut tf = frame(ProcessId(0), 7);
    assert_eq!(scheduler.switch(&mut tf, State::Ready, 5 * MS).ok(), Some((ProcessId(0), 48 * MS)));
    assert_eq!(tf, frame(ProcessId(0), 7));
    assert_eq!(scheduler.switch(&mut tf, State::Waiting, 6 * MS).ok(), Some((ProcessId(1), 48 * MS)));
    assert_eq!(tf, TrapFrame::zeroed());
    tf.tpidr = 1;
    assert_eq!(scheduler.switch(&mut tf, State::Dead, 7 * MS).err(), Some(SchedulerError::NoRunnableProcess));
    assert_eq!(scheduler.switch(&mut tf, State::Ready, 8 * MS).err(), Some(SchedulerError::ProcessNotFound));
}

#[test]
fn proportional_share_remove_returns_the_dead_process() {
    let mut scheduler = ProportionalShareScheduler::new();
    scheduler.add(ProcessId(3), ScheduledProcess::new(None));
    scheduler.add(ProcessId(4), ScheduledProcess::new(None));
    let mut tf = TrapFrame::zeroed();
    scheduler.schedule_in(0, &mut tf).ok().unwrap();
    let mut tf = frame(ProcessId(3), 0);
    let dead = scheduler.remove(&mut tf, 4 * MS).ok().unwrap();
    assert_eq!(dead.id, ProcessId(3));
    assert_eq!(dead.process.state, State::Dead);
    assert_eq!(dead.virtual_runtime, 4000);
    let mut tf = frame(ProcessId(3), 0);
    assert_eq!(scheduler.remove(&mut tf, 4 * MS).err(), Some(SchedulerError::ProcessNotFound));
}

use rustos::kernel::scheduling::round_robin::RoundRobinScheduler;

#[test]
fn round_robin_scheduler_switches_on_force_and_timer_only() {
    let mut scheduler = RoundRobinScheduler::new();
    scheduler.add(ProcessId(0), ScheduledProcess::new(None));
    scheduler.add(ProcessId(1), ScheduledProcess::new(Some(ProcessId(0))));
    let mut tf = TrapFrame::zeroed();
    assert_eq!(scheduler.schedule_in(&mut tf), Ok(ProcessId(0)));
    let mut tf = frame(ProcessId(0), 4);
    assert_eq!(scheduler.switch(&mut tf, SwitchTrigger::Yield, State::Ready), Ok(()));
    assert_eq!(tf, frame(ProcessId(0), 4));
    assert_eq!(scheduler.switch(&mut tf, SwitchTrigger::Timer, State::Ready), Ok(()));
    assert_eq!(tf, TrapFrame::zeroed());
    tf.tpidr = 1;
    assert_eq!(scheduler.switch(&mut tf, SwitchTrigger::Force, State::Dead), Ok(()));
    assert_eq!(tf, frame(ProcessId(0), 4));
    let mut gone = frame(ProcessId(1), 0);
    assert_eq!(scheduler.switch(&mut gone, SwitchTrigger::Force, State::Ready), Err(SchedulerError::ProcessNotFound));
    assert_eq!(scheduler.switch(&mut tf, SwitchTrigger::Force, State::Waiting), Err(SchedulerError::NoRunnableProcess));
}

#[test]
fn round_robin_scheduler_remove_hands_back_the_process() {
    let mut scheduler = RoundRobinScheduler::new();
    scheduler.add(ProcessId(5), ScheduledProcess::new(None));
    scheduler.add(ProcessId(6), ScheduledProcess::new(None));
    let mut tf = TrapFrame::zeroed();
    assert_eq!(scheduler.schedule_in(&mut tf), Ok(ProcessId(5)));
    let mut tf = frame(ProcessId(5), 8);
    let removed = scheduler.remove(&mut tf).ok().unwrap();
    assert_eq!(removed.id, ProcessId(5));
    assert_eq!(removed.process.state, State::Ready);
    assert_eq!(removed.process.context, frame(ProcessId(5), 8));
    let mut tf = frame(ProcessId(5), 8);
    assert_eq!(scheduler.remove(&mut tf).err(), Some(SchedulerError::ProcessNotFound));
    assert_eq!(scheduler.schedule_out(&frame(ProcessId(6), 0), State::Ready), Ok(()));
}

#[test]
fn a_waiting_process_runs_once_its_event_arrives() {
    let mut process = ScheduledProcess::new(None);
    assert!(process.can_run(false));
    process.state = State::Waiting;
    assert!(!process.can_run(false));
    assert_eq!(process.state, State::Waiting);
    assert!(process.can_run(true));
    assert_eq!(process.state, State::Ready);
    process.state = State::Dead;
    assert!(!process.can_run(true));
}

#[test]
fn proportional_share_wakes_a_waiting_process() {
    let mut scheduler = ProportionalShareScheduler::new();
    let mut sleeper = ScheduledProcess::new(None);
    sleeper.state = State::Waiting;
    scheduler.add(ProcessId(0), sleeper);
    let mut tf = TrapFrame::zeroed();
    assert_eq!(scheduler.schedule_in(0, &mut tf).err(), Some(SchedulerError::NoRunnableProcess));
    assert!(!scheduler.wake(ProcessId(1)));
    assert!(scheduler.wake(ProcessId(0)));
    assert!(!scheduler.wake(ProcessId(0)));
    assert_eq!(scheduler.schedule_in(0, &mut tf).ok(), Some((ProcessId(0), 48 * MS)));
}

#[test]
fn queue_scheduler_writes_the_id_into_the_thread_register() {
    let mut scheduler = Scheduler::new();
    let mut process = ScheduledProcess::new(None);
    process.context.tpidr = 77;
    process.context.elr = 0x1000;
    assert_eq!(scheduler.add(process), Some(ProcessId(0)));
    let mut tf = TrapFrame::zeroed();
    assert_eq!(scheduler.switch_to(&mut tf), Some(ProcessId(0)));
    assert_eq!(tf.tpidr, 0);
    assert_eq!(tf.elr, 0x1000);
}

#[test]
fn round_robin_scheduler_wakes_a_waiting_process() {
    let mut scheduler = RoundRobinScheduler::new();
    let mut sleeper = ScheduledProcess::new(None);
    sleeper.state = State::Waiting;
    scheduler.add(ProcessId(2), sleeper);
    let mut tf = TrapFrame::zeroed();
    assert_eq!(scheduler.schedule_in(&mut tf), Err(SchedulerError::NoRunnableProcess));
    assert!(!scheduler.wake(ProcessId(3)));
    assert!(scheduler.wake(ProcessId(2)));
    assert_eq!(scheduler.schedule_in(&mut tf), Ok(ProcessId(2)));
}

#[test]
fn fair_policy_holds_a_process_in_one_place_at_a_time() {
    let mut policy = FairPolicy::new(48 * MS, 6 * MS);
    policy.insert(ProcessId(1));
    policy.inform(ProcessId(1), &PolicyInformation::StartRunning);
    assert!(policy.advise().is_none());
    policy.inform(ProcessId(1), &PolicyInformation::ScheduledOut(5 * MS, SwitchTrigger::Force, true));
    assert!(policy.advise().is_none());
    policy.inform(ProcessId(1), &PolicyInformation::DoneWaiting);
    let advice = policy.advise().unwrap();
    assert_eq!(advice.process_id, ProcessId(1));
    assert_eq!(advice.runtime, Some(48 * MS));
}

#[test]
fn the_scheduler_saves_and_gives_back_a_process_context() {
    let mut scheduler = SchedulerInformation::new();
    let first = scheduler.add(ScheduledProcess::new(None));
    let second = scheduler.add(ScheduledProcess::new(None));
    let mut tf = TrapFrame::zeroed();
    assert_eq!(scheduler.schedule_in(0, &mut tf), Some((first, Some(24 * MS))));
    assert_eq!(scheduler.save_context(&frame(first, 11)), Ok(()));
    assert_eq!(scheduler.saved_context(first), Some(frame(first, 11)));
    assert_eq!(scheduler.save_context(&frame(second, 12)), Ok(()));
    assert_eq!(scheduler.saved_context(second), Some(frame(second, 12)));
    assert_eq!(scheduler.save_context(&frame(ProcessId(9), 0)), Err(SchedulerError::ProcessNotFound));
    assert_eq!(scheduler.saved_context(ProcessId(9)), None);
}
