use vstd::prelude::*;

verus! {

/// Why a command line could not be parsed.
#[derive(Debug, PartialEq, Eq, Structural, Clone, Copy)]
pub enum Error {
    /// The line holds no arguments.
    Empty,
    /// The line holds more arguments than there is room for.
    TooManyArgs,
}

/// The space-separated words of `line` scanned from `i`, the current word
/// starting at `start`; empty words are dropped.
pub open spec fn words_from(line: Seq<u8>, start: int, i: int) -> Seq<Seq<u8>>
    decreases line.len() - i,
{
    if i < 0 || i >= line.len() {
        if start < line.len() {
            seq![line.subrange(start, line.len() as int)]
        } else {
            seq![]
        }
    } else if line[i] == 0x20 {
        if start < i {
            seq![line.subrange(start, i)] + words_from(line, i + 1, i + 1)
        } else {
            words_from(line, i + 1, i + 1)
        }
    } else {
        words_from(line, start, i + 1)
    }
}

/// The space-separated, non-empty words of a command line.
pub open spec fn words(line: Seq<u8>) -> Seq<Seq<u8>> {
    words_from(line, 0, 0)
}

/// A single shell command: its arguments, the first being the command.
pub struct Command {
    args: Vec<Vec<u8>>,
}

impl Command {
    /// The arguments, in order.
    pub closed spec fn arguments(&self) -> Seq<Seq<u8>> {
        Seq::new(self.args@.len(), |i: int| self.args@[i]@)
    }

    /// Parses a command line into at most `capacity` arguments.
    ///
    /// # Errors
    ///
    /// If the line contains no arguments, returns `Error::Empty`. If there
    /// are more arguments than `capacity`, returns `Error::TooManyArgs`.
    pub fn parse(line: &[u8], capacity: usize) -> (r: Result<Command, Error>)
        ensures
            words(line@).len() > capacity ==> r == Err::<Command, Error>(Error::TooManyArgs),
            words(line@).len() <= capacity && words(line@).len() == 0 ==> r == Err::<
                Command,
                Error,
            >(Error::Empty),
            words(line@).len() <= capacity && words(line@).len() > 0 ==> r is Ok
                && r->Ok_0.arguments() == words(line@),
    {
        let mut args: Vec<Vec<u8>> = Vec::new();
        let ghost mut found: Seq<Seq<u8>> = seq![];
        let len = line.len();
        let mut start: usize = 0;
        let mut i: usize = 0;
        while i < len
            invariant
                len == line@.len(),
                start <= i <= len,
                found + words_from(line@, start as int, i as int) == words(line@),
                args@.len() == found.len(),
                args@.len() <= capacity,
                forall|k: int| 0 <= k < args@.len() ==> #[trigger] args@[k]@ == found[k],
            decreases len - i,
        {
            if line[i] == 0x20 {
                if start < i {
                    if args.len() >= capacity {
                        proof {
                            lemma_words_from_len(line@, start as int, i as int);
                        }
                        return Err(Error::TooManyArgs);
                    }
                    let word = copy_range(line, start, i);
                    proof {
                        let w = line@.subrange(start as int, i as int);
                        assert(found.push(w) + words_from(line@, i + 1, i + 1) =~= found
                            + words_from(line@, start as int, i as int));
                        found = found.push(w);
                    }
                    args.push(word);
                }
                start = i + 1;
            }
            i += 1;
        }
        if start < len {
            if args.len() >= capacity {
                proof {
                    lemma_words_from_len(line@, start as int, len as int);
                }
                return Err(Error::TooManyArgs);
            }
            let word = copy_range(line, start, len);
            proof {
                let w = line@.subrange(start as int, len as int);
                assert(found.push(w) =~= found + words_from(line@, start as int, i as int));
                found = found.push(w);
            }
            args.push(word);
        } else {
            assert(found =~= found + words_from(line@, start as int, i as int));
        }
        if args.len() == 0 {
            return Err(Error::Empty);
        }
        let r = Command { args };
        assert(r.arguments() =~= words(line@));
        Ok(r)
    }

    /// The number of arguments.
    pub fn len(&self) -> (r: usize)
        ensures
            r == self.arguments().len(),
    {
        self.args.len()
    }

    /// Argument `i`.
    pub fn arg(&self, i: usize) -> (r: &Vec<u8>)
        requires
            i < self.arguments().len(),
        ensures
            r@ == self.arguments()[i as int],
    {
        &self.args[i]
    }

    /// This command's path: its first argument.
    pub fn path(&self) -> (r: &Vec<u8>)
        requires
            self.arguments().len() > 0,
        ensures
            r@ == self.arguments()[0],
    {
        &self.args[0]
    }
}

/// The words found from a point on only add to those already found, so
/// the count of words never falls below the words already passed.
proof fn lemma_words_from_len(line: Seq<u8>, start: int, i: int)
    requires
        0 <= start < i <= line.len(),
        i == line.len() || line[i] == 0x20,
    ensures
        words_from(line, start, i).len() >= 1,
{
    if i < line.len() {
        assert(words_from(line, start, i) == seq![line.subrange(start, i)] + words_from(
            line,
            i + 1,
            i + 1,
        ));
    }
}

/// A copy of `line[start..end]`.
fn copy_range(line: &[u8], start: usize, end: usize) -> (r: Vec<u8>)
    requires
        start <= end <= line@.len(),
    ensures
        r@ == line@.subrange(start as int, end as int),
{
    let mut r: Vec<u8> = Vec::new();
    let mut j = start;
    while j < end
        invariant
            start <= j <= end <= line@.len(),
            r@ == line@.subrange(start as int, j as int),
        decreases end - j,
    {
        r.push(line[j]);
        proof {
            assert(line@.subrange(start as int, j + 1) =~= line@.subrange(start as int, j as int).push(
                line@[j as int],
            ));
        }
        j += 1;
    }
    r
}

/// The words the shell understands.
pub open spec fn word_echo() -> Seq<u8> {
    seq![0x65u8, 0x63, 0x68, 0x6f]
}

pub open spec fn word_pwd() -> Seq<u8> {
    seq![0x70u8, 0x77, 0x64]
}

pub open spec fn word_cd() -> Seq<u8> {
    seq![0x63u8, 0x64]
}

pub open spec fn word_ls() -> Seq<u8> {
    seq![0x6cu8, 0x73]
}

pub open spec fn word_cat() -> Seq<u8> {
    seq![0x63u8, 0x61, 0x74]
}

pub open spec fn word_exit() -> Seq<u8> {
    seq![0x65u8, 0x78, 0x69, 0x74]
}

/// The `ls` flag that shows hidden entries.
pub open spec fn word_show_hidden() -> Seq<u8> {
    seq![0x2du8, 0x61]
}

/// What the shell does for a command.
#[derive(Debug, PartialEq, Eq)]
pub enum ShellAction {
    /// Print each argument after the first, each followed by a space, then
    /// a newline.
    Echo,
    /// Print the working directory.
    Pwd,
    /// Change to the working directory joined with this path, if it names
    /// a directory.
    Cd(Vec<u8>),
    /// `cd` without a path: report that there are not enough arguments.
    CdMissingArgument,
    /// List a directory: the working directory joined with the path, if
    /// any; entries whose names start with a dot only when hidden entries
    /// are shown.
    Ls { show_hidden: bool, path: Option<Vec<u8>> },
    /// Print the file at the working directory joined with this path.
    Cat(Vec<u8>),
    /// `cat` without a path: report that there are not enough arguments.
    CatMissingArgument,
    /// Leave the shell.
    Exit,
    /// Report an unknown command.
    Unknown,
}

/// The `ls` options among the arguments from `i` on: any number of `-a`
/// flags, then the first other argument is the path and ends the options.
pub open spec fn ls_options_from(args: Seq<Seq<u8>>, i: int, show_hidden: bool) -> (bool, Option<Seq<u8>>)
    decreases args.len() - i,
{
    if i < 0 || i >= args.len() {
        (show_hidden, None)
    } else if args[i] == word_show_hidden() {
        ls_options_from(args, i + 1, true)
    } else {
        (show_hidden, Some(args[i]))
    }
}

/// The view of an action: its variant, with byte strings as sequences.
pub open spec fn action_matches(action: ShellAction, args: Seq<Seq<u8>>) -> bool {
    let path = args[0];
    if path == word_echo() {
        action == ShellAction::Echo
    } else if path == word_pwd() {
        action == ShellAction::Pwd
    } else if path == word_cd() {
        if args.len() < 2 {
            action == ShellAction::CdMissingArgument
        } else {
            action matches ShellAction::Cd(p) && p@ == args[1]
        }
    } else if path == word_ls() {
        let (show, p) = ls_options_from(args, 1, false);
        action matches ShellAction::Ls { show_hidden, path } && show_hidden == show && match p {
            None => path is None,
            Some(q) => path matches Some(pp) && pp@ == q,
        }
    } else if path == word_cat() {
        if args.len() < 2 {
            action == ShellAction::CatMissingArgument
        } else {
            action matches ShellAction::Cat(p) && p@ == args[1]
        }
    } else if path == word_exit() {
        action == ShellAction::Exit
    } else {
        action == ShellAction::Unknown
    }
}

/// Whether `a` holds exactly the bytes of `b`.
fn bytes_eq(a: &[u8], b: &[u8]) -> (r: bool)
    ensures
        r <==> a@ == b@,
{
    if a.len() != b.len() {
        return false;
    }
    let mut i: usize = 0;
    while i < a.len()
        invariant
            a@.len() == b@.len(),
            i <= a@.len(),
            forall|j: int| 0 <= j < i ==> a@[j] == b@[j],
        decreases a@.len() - i,
    {
        if a[i] != b[i] {
            return false;
        }
        i += 1;
    }
    assert(a@ =~= b@);
    true
}

/// Decides what the shell does for `command`.
pub fn run_command(command: &Command) -> (r: ShellAction)
    requires
        command.arguments().len() > 0,
    ensures
        action_matches(r, command.arguments()),
{
    let path = command.path().as_slice();
    let echo: [u8; 4] = [0x65, 0x63, 0x68, 0x6f];
    let pwd: [u8; 3] = [0x70, 0x77, 0x64];
    let cd: [u8; 2] = [0x63, 0x64];
    let ls: [u8; 2] = [0x6c, 0x73];
    let cat: [u8; 3] = [0x63, 0x61, 0x74];
    let exit: [u8; 4] = [0x65, 0x78, 0x69, 0x74];
    assert(echo@ =~= word_echo());
    assert(pwd@ =~= word_pwd());
    assert(cd@ =~= word_cd());
    assert(ls@ =~= word_ls());
    assert(cat@ =~= word_cat());
    assert(exit@ =~= word_exit());
    if bytes_eq(path, &echo) {
        ShellAction::Echo
    } else if bytes_eq(path, &pwd) {
        ShellAction::Pwd
    } else if bytes_eq(path, &cd) {
        if command.len() < 2 {
            ShellAction::CdMissingArgument
        } else {
            ShellAction::Cd(command.arg(1).clone())
        }
    } else if bytes_eq(path, &ls) {
        ls_options(command)
    } else if bytes_eq(path, &cat) {
        if command.len() < 2 {
            ShellAction::CatMissingArgument
        } else {
            ShellAction::Cat(command.arg(1).clone())
        }
    } else if bytes_eq(path, &exit) {
        ShellAction::Exit
    } else {
        ShellAction::Unknown
    }
}

/// The options of an `ls` command.
fn ls_options(command: &Command) -> (r: ShellAction)
    requires
        command.arguments().len() > 0,
    ensures
        ({
            let (show, p) = ls_options_from(command.arguments(), 1, false);
            r matches ShellAction::Ls { show_hidden, path } && show_hidden == show && match p {
                None => path is None,
                Some(q) => path matches Some(pp) && pp@ == q,
            }
        }),
{
    let flag: [u8; 2] = [0x2d, 0x61];
    assert(flag@ =~= word_show_hidden());
    let mut show_hidden = false;
    let mut i: usize = 1;
    while i < command.len()
        invariant
            1 <= i <= command.arguments().len(),
            flag@ == word_show_hidden(),
            ls_options_from(command.arguments(), 1, false) == ls_options_from(
                command.arguments(),
                i as int,
                show_hidden,
            ),
        decreases command.arguments().len() - i,
    {
        if bytes_eq(command.arg(i).as_slice(), &flag) {
            show_hidden = true;
        } else {
            let path = command.arg(i).clone();
            assert(path@ =~= command.arguments()[i as int]);
            return ShellAction::Ls { show_hidden, path: Some(path) };
        }
        i += 1;
    }
    ShellAction::Ls { show_hidden, path: None }
}

/// Whether `ls` shows an entry: names starting with a dot only when hidden
/// entries are shown.
pub fn ls_shows(name: &[u8], show_hidden: bool) -> (r: bool)
    ensures
        r <==> !(name@.len() > 0 && name@[0] == 0x2e) || show_hidden,
{
    !(name.len() > 0 && name[0] == 0x2e) || show_hidden
}

/// The longest command line the shell accepts is one byte shorter than this.
pub const COMMAND_CAPACITY: usize = 512;

/// What the shell does with one byte typed at the prompt.
#[derive(Debug, PartialEq, Eq, Structural, Clone, Copy)]
pub enum LineEvent {
    /// A newline or carriage return: the line is complete.
    Submitted,
    /// A backspace or delete with text to erase: the last byte was removed
    /// (the terminal is sent backspace, space, backspace).
    Erased,
    /// A backspace or delete on an empty line: nothing happens.
    Ignored,
    /// Any other byte: it was echoed and appended.
    Echoed(u8),
    /// The byte was echoed and filled the buffer: the line is dropped and
    /// the shell reports that the command is too long.
    Overflowed(u8),
}

/// The command line being typed at the prompt.
pub struct LineEditor {
    buffer: Vec<u8>,
}

impl LineEditor {
    /// The bytes typed so far.
    pub closed spec fn contents(&self) -> Seq<u8> {
        self.buffer@
    }

    /// The line always has room for one more byte.
    pub open spec fn wf(&self) -> bool {
        self.contents().len() < COMMAND_CAPACITY
    }

    /// An empty line.
    pub fn new() -> (r: Self)
        ensures
            r.contents() == Seq::<u8>::empty(),
            r.wf(),
    {
        LineEditor { buffer: Vec::new() }
    }

    /// Handles one typed byte.
    pub fn feed(&mut self, byte: u8) -> (r: LineEvent)
        requires
            old(self).wf(),
        ensures
            final(self).wf(),
            byte == 0x0a || byte == 0x0d ==> r == LineEvent::Submitted && final(self).contents()
                == old(self).contents(),
            (byte == 8 || byte == 127) && old(self).contents().len() > 0 ==> r == LineEvent::Erased
                && final(self).contents() == old(self).contents().drop_last(),
            (byte == 8 || byte == 127) && old(self).contents().len() == 0 ==> r == LineEvent::Ignored
                && final(self).contents() == old(self).contents(),
            byte != 0x0a && byte != 0x0d && byte != 8 && byte != 127 && old(self).contents().len() + 1
                < COMMAND_CAPACITY ==> r == LineEvent::Echoed(byte) && final(self).contents()
                == old(self).contents().push(byte),
            byte != 0x0a && byte != 0x0d && byte != 8 && byte != 127 && old(self).contents().len() + 1
                == COMMAND_CAPACITY ==> r == LineEvent::Overflowed(byte) && final(self).contents()
                == Seq::<u8>::empty(),
    {
        if byte == 0x0a || byte == 0x0d {
            LineEvent::Submitted
        } else if byte == 8 || byte == 127 {
            if self.buffer.len() > 0 {
                self.buffer.pop();
                LineEvent::Erased
            } else {
                LineEvent::Ignored
            }
        } else {
            self.buffer.push(byte);
            if self.buffer.len() == COMMAND_CAPACITY {
                self.buffer.clear();
                LineEvent::Overflowed(byte)
            } else {
                LineEvent::Echoed(byte)
            }
        }
    }

    /// Hands out the line typed so far and starts a new one.
    pub fn take_line(&mut self) -> (r: Vec<u8>)
        ensures
            r@ == old(self).contents(),
            final(self).contents() == Seq::<u8>::empty(),
            final(self).wf(),
    {
        let mut line: Vec<u8> = Vec::new();
        std::mem::swap(&mut line, &mut self.buffer);
        line
    }
}

} // verus!
