use rustos::kernel::error::OsError;
use rustos::kernel::process::execute::{execute_stack_image, parse_execute};
use rustos::kernel::process::pipe::{Pipe, PipeError, PipeResource};
use rustos::kernel::process::resource::{ResourceId, ResourceList};
use rustos::kernel::process::ProcessId;
use rustos::kernel::traps::syscall::{check_user_range, sleep_deadline, sleep_outcome, wait_outcome};

fn ids(list: &ResourceList<&'static str>) -> Vec<u64> {
    (0..list.len()).map(|i| list.id_at(i).0).collect()
}

#[test]
fn resources_fill_the_first_gap() {
    let mut list = ResourceList::new();
    assert_eq!(list.insert_with_id(ResourceId(5), "five"), Ok(()));
    assert_eq!(list.insert("a"), ResourceId(0));
    assert_eq!(list.insert("b"), ResourceId(1));
    assert_eq!(ids(&list), vec![0, 1, 5]);
}

#[test]
fn a_full_prefix_inserts_at_the_front_as_zero() {
    let mut list = ResourceList::new();
    assert_eq!(list.insert("a"), ResourceId(0));
    assert_eq!(list.insert("b"), ResourceId(0));
    assert_eq!(ids(&list), vec![0, 0]);
}

#[test]
fn insert_with_an_existing_id_is_refused() {
    let mut list = ResourceList::new();
    list.insert("a");
    assert_eq!(list.insert_with_id(ResourceId(0), "b"), Err(OsError::UnknownResourceId));
    assert_eq!(list.insert_with_id(ResourceId(3), "c"), Ok(()));
    assert_eq!(ids(&list), vec![3, 0]);
}

#[test]
fn remove_and_get_find_by_id() {
    let mut list = ResourceList::new();
    list.insert_with_id(ResourceId(2), "two").unwrap();
    list.insert("zero");
    assert_eq!(list.get(ResourceId(2)).ok().map(|r| *r), Some("two"));
    *list.get(ResourceId(0)).ok().unwrap() = "changed";
    assert_eq!(list.get(ResourceId(0)).ok().map(|r| *r), Some("changed"));
    assert_eq!(list.get(ResourceId(9)).err(), Some(OsError::UnknownResourceId));
    assert_eq!(list.remove(ResourceId(2)), Ok(()));
    assert_eq!(list.remove(ResourceId(2)), Err(OsError::UnknownResourceId));
    assert_eq!(ids(&list), vec![0]);
}

#[test]
fn duplicate_stops_at_the_first_failure() {
    let mut list = ResourceList::new();
    list.insert_with_id(ResourceId(1), "a").unwrap();
    list.insert_with_id(ResourceId(2), "b").unwrap();
    list.insert_with_id(ResourceId(3), "c").unwrap();
    let copy = list.duplicate(vec![Some("a2"), None, Some("c2")]);
    assert_eq!(ids(&copy), vec![1]);
    let full = list.duplicate(vec![Some("a2"), Some("b2"), Some("c2")]);
    assert_eq!(ids(&full), vec![1, 2, 3]);
}

#[test]
fn resource_ids_convert_both_ways() {
    assert_eq!(ResourceId::from(7u64), ResourceId(7));
    assert_eq!(u64::from(ResourceId(7)), 7);
    assert_eq!(ProcessId::from(3u64), ProcessId(3));
    assert_eq!(u64::from(ProcessId(3)), 3);
}

#[test]
fn execute_arguments_split_at_nul() {
    assert_eq!(parse_execute(b"ls\0-a\0"), vec!["ls".to_string(), "-a".to_string()]);
    assert_eq!(parse_execute(b"ls\0-a"), vec!["ls".to_string(), "-a".to_string()]);
    assert_eq!(parse_execute(b"\0x"), vec!["".to_string(), "x".to_string()]);
    assert_eq!(parse_execute(b""), Vec::<String>::new());
    assert_eq!(parse_execute(b"a\0\0b"), vec!["a".to_string(), "".to_string(), "b".to_string()]);
    assert_eq!(parse_execute(b"\0"), vec!["".to_string()]);
}

#[test]
fn execute_arguments_replace_invalid_utf8() {
    assert_eq!(parse_execute(b"a\xffb\0"), vec!["a\u{FFFD}b".to_string()]);
}

#[test]
fn execute_stack_holds_lengths_and_reversed_pieces() {
    let image = execute_stack_image(b"ab\0c", b"");
    let mut forward = Vec::new();
    forward.extend_from_slice(&4u64.to_be_bytes());
    forward.extend_from_slice(&0u64.to_be_bytes());
    forward.extend_from_slice(b"ba\0c\0\0");
    forward.reverse();
    assert_eq!(image, forward);
}

#[test]
fn pipe_reads_back_what_was_written_in_order() {
    let (writer, reader) = PipeResource::new_pair();
    let mut pipe = Pipe::new();
    assert_eq!(writer.write(&mut pipe, b"hello"), Ok(5));
    assert_eq!(writer.write(&mut pipe, b" world"), Ok(6));
    let mut small = [0u8; 4];
    assert_eq!(reader.read(&mut pipe, &mut small), Ok(4));
    assert_eq!(&small, b"hell");
    let mut big = [b'.'; 10];
    assert_eq!(reader.read(&mut pipe, &mut big), Ok(7));
    assert_eq!(&big, b"o world...");
    assert_eq!(pipe.len(), 0);
    assert_eq!(reader.read(&mut pipe, &mut big), Ok(0));
}

#[test]
fn pipe_ends_refuse_the_other_direction() {
    let (writer, reader) = PipeResource::new_pair();
    let mut pipe = Pipe::new();
    assert_eq!(reader.write(&mut pipe, b"x"), Err(PipeError::Unsupported));
    pipe.write(b"y");
    let mut buf = [0u8; 1];
    assert_eq!(writer.read(&mut pipe, &mut buf), Err(PipeError::Unsupported));
    assert_eq!(pipe.len(), 1);
    assert_eq!(writer.seek(), Err(PipeError::Unsupported));
}

#[test]
fn user_buffers_may_not_cross_their_page() {
    assert_eq!(check_user_range(0x1_0000, 0x1_0000), Ok(()));
    assert_eq!(check_user_range(0x1_0001, 0x1_0000), Err(OsError::BadAddress));
    assert_eq!(check_user_range(0xfff0, 0x10), Ok(()));
    assert_eq!(check_user_range(0xfff0, 0x11), Err(OsError::BadAddress));
    assert_eq!(check_user_range(0, usize::MAX), Err(OsError::BadAddress));
}

#[test]
fn sleepers_wake_after_their_deadline() {
    let started = 5_000_000;
    let deadline = sleep_deadline(started, 10);
    assert_eq!(deadline, 15_000_000);
    assert_eq!(sleep_outcome(started, deadline, 15_000_000), None);
    assert_eq!(sleep_outcome(started, deadline, 15_000_001), Some(10));
    assert_eq!(sleep_outcome(started, deadline, 27_999_999), Some(22));
}

#[test]
fn waiters_take_the_last_dead_child_or_time_out() {
    let mut children = vec![ProcessId(4), ProcessId(6)];
    assert_eq!(wait_outcome(&mut children, false, 0, 10), Some((6, 0)));
    assert_eq!(children, vec![ProcessId(4)]);
    assert_eq!(wait_outcome(&mut children, true, 0, 10), Some((4, 0)));
    assert_eq!(wait_outcome(&mut children, false, 0, 10), None);
    assert_eq!(wait_outcome(&mut children, true, 20, 10), None);
    assert_eq!(wait_outcome(&mut children, true, 5, 10), Some((0, 1)));
}

use rustos::kernel::process::execute::{execute_context, USER_SPSR};
use rustos::kernel::process::state::{ScheduledProcess, State, SYSCALL_SUCCESS};
use rustos::kernel::traps::frame::TrapFrame;

#[test]
fn execute_sets_up_the_program_context() {
    let mut context = TrapFrame::zeroed();
    context.xs[3] = 33;
    let arguments = b"ls\0-a\0";
    let environment = b"A=1";
    let image = execute_context(arguments, environment, u64::MAX, 0x20_0000, 0x1000, 0x2000, &mut context)
        .ok()
        .unwrap();
    assert_eq!(image, execute_stack_image(arguments, environment));
    assert_eq!(image.len(), arguments.len() + environment.len() + 18);
    assert_eq!(context.sp, u64::MAX - (6 + 3 + 18));
    assert_eq!(context.elr, 0x20_0000);
    assert_eq!(context.ttbr0, 0x1000);
    assert_eq!(context.ttbr1, 0x2000);
    assert_eq!(context.spsr, USER_SPSR);
    assert_eq!(USER_SPSR, (1 << 6) | (1 << 8) | (1 << 9));
    assert_eq!(context.xs[3], 33);
}

#[test]
fn execute_without_arguments_is_an_invalid_filename() {
    let mut context = TrapFrame::zeroed();
    context.sp = 5;
    assert_eq!(
        execute_context(b"", b"A=1", u64::MAX, 0x20_0000, 0x1000, 0x2000, &mut context).err(),
        Some(OsError::InvalidFilename)
    );
    let mut unchanged = TrapFrame::zeroed();
    unchanged.sp = 5;
    assert_eq!(context, unchanged);
}

#[test]
fn a_forked_child_resumes_from_its_parents_registers() {
    let mut parent = ScheduledProcess::new(None);
    parent.context.tpidr = 4;
    parent.context.elr = 0x1234;
    parent.context.xs[0] = 9;
    parent.context.xs[1] = 9;
    parent.context.xs[2] = 9;
    parent.context.xs[7] = 9;
    parent.dead_children.push(ProcessId(2));
    parent.state = State::Running;
    let child = parent.fork(0x1000, 0x3000);
    assert_eq!(child.state, State::Ready);
    assert_eq!(child.parent, Some(ProcessId(4)));
    assert!(child.dead_children.is_empty());
    assert_eq!(child.context.xs[0], 0);
    assert_eq!(child.context.xs[1], 1);
    assert_eq!(child.context.xs[2], 9);
    assert_eq!(child.context.xs[7], SYSCALL_SUCCESS);
    assert_eq!(child.context.elr, 0x1234);
    assert_eq!(child.context.tpidr, 4);
    assert_eq!(child.context.ttbr0, 0x1000);
    assert_eq!(child.context.ttbr1, 0x3000);
}

use rustos::kernel::traps::syscall::sys_time;

#[test]
fn the_time_call_reports_seconds_and_fractional_nanoseconds() {
    let mut tf = TrapFrame::zeroed();
    tf.xs[2] = 5;
    assert_eq!(sys_time(3_250_000_007, &mut tf), Ok(()));
    assert_eq!(tf.xs[0], 3);
    assert_eq!(tf.xs[1], 250_000_007);
    assert_eq!(tf.xs[2], 5);
}

#[test]
fn nul_terminated_fields_come_back_from_parsing() {
    let fields = ["ls", "-la", "", "/home/user", "é"];
    let mut data = Vec::new();
    for f in fields.iter() {
        data.extend_from_slice(f.as_bytes());
        data.push(0);
    }
    let parsed = parse_execute(&data);
    assert_eq!(parsed, fields.iter().map(|f| f.to_string()).collect::<Vec<_>>());
}
