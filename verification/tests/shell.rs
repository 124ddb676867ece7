use rustos::kern::shell::{
    ls_shows, run_command, Command, Error, LineEditor, LineEvent, ShellAction, COMMAND_CAPACITY,
};

#[test]
fn parse_splits_words_and_drops_empty_ones() {
    let command = Command::parse(b"  echo  hello world ", 512).ok().unwrap();
    assert_eq!(command.len(), 3);
    assert_eq!(command.path().as_slice(), b"echo");
    assert_eq!(command.arg(1).as_slice(), b"hello");
    assert_eq!(command.arg(2).as_slice(), b"world");
}

#[test]
fn parse_rejects_empty_lines() {
    assert_eq!(Command::parse(b"", 4).err(), Some(Error::Empty));
    assert_eq!(Command::parse(b"    ", 4).err(), Some(Error::Empty));
}

#[test]
fn parse_rejects_too_many_arguments() {
    assert_eq!(Command::parse(b"a b c", 2).err(), Some(Error::TooManyArgs));
    assert!(Command::parse(b"a b", 2).is_ok());
}

fn action(line: &[u8]) -> ShellAction {
    run_command(&Command::parse(line, 64).ok().unwrap())
}

#[test]
fn commands_are_dispatched_by_name() {
    assert_eq!(action(b"echo hi"), ShellAction::Echo);
    assert_eq!(action(b"pwd"), ShellAction::Pwd);
    assert_eq!(action(b"cd /bin"), ShellAction::Cd(b"/bin".to_vec()));
    assert_eq!(action(b"cd"), ShellAction::CdMissingArgument);
    assert_eq!(action(b"cat a.txt b.txt"), ShellAction::Cat(b"a.txt".to_vec()));
    assert_eq!(action(b"cat"), ShellAction::CatMissingArgument);
    assert_eq!(action(b"exit"), ShellAction::Exit);
    assert_eq!(action(b"rm -rf /"), ShellAction::Unknown);
}

#[test]
fn ls_reads_hidden_flags_then_a_path() {
    assert_eq!(action(b"ls"), ShellAction::Ls { show_hidden: false, path: None });
    assert_eq!(action(b"ls -a"), ShellAction::Ls { show_hidden: true, path: None });
    assert_eq!(action(b"ls -a -a /x"), ShellAction::Ls { show_hidden: true, path: Some(b"/x".to_vec()) });
    assert_eq!(action(b"ls /x -a"), ShellAction::Ls { show_hidden: false, path: Some(b"/x".to_vec()) });
}

#[test]
fn ls_hides_dot_entries_unless_asked() {
    assert!(ls_shows(b"file", false));
    assert!(!ls_shows(b".hidden", false));
    assert!(ls_shows(b".hidden", true));
    assert!(ls_shows(b"", false));
}

#[test]
fn line_editor_echoes_erases_and_submits() {
    let mut editor = LineEditor::new();
    assert_eq!(editor.feed(8), LineEvent::Ignored);
    assert_eq!(editor.feed(b'l'), LineEvent::Echoed(b'l'));
    assert_eq!(editor.feed(b's'), LineEvent::Echoed(b's'));
    assert_eq!(editor.feed(b'x'), LineEvent::Echoed(b'x'));
    assert_eq!(editor.feed(127), LineEvent::Erased);
    assert_eq!(editor.feed(b'\r'), LineEvent::Submitted);
    assert_eq!(editor.take_line(), b"ls".to_vec());
    assert_eq!(editor.take_line(), Vec::<u8>::new());
}

#[test]
fn line_editor_drops_an_overlong_line() {
    let mut editor = LineEditor::new();
    for _ in 0..COMMAND_CAPACITY - 1 {
        assert_eq!(editor.feed(b'a'), LineEvent::Echoed(b'a'));
    }
    assert_eq!(editor.feed(b'b'), LineEvent::Overflowed(b'b'));
    assert_eq!(editor.feed(b'\n'), LineEvent::Submitted);
    assert_eq!(editor.take_line(), Vec::<u8>::new());
}
