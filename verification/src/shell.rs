//! The shell: a table of built-in commands, their dispatch, and the line
//! editor that turns received bytes into commands.
//!
//! Everything the shell shows goes to the console, which it is handed
//! behind its lock. Each write takes the lock and gives it back, so the
//! shell never holds the console when it calls a command or returns.

use crate::bounded::{after_pop, after_push, has_room, LineBuf, Overflow, LINE_CAPACITY};
use crate::command::{
    is_word, lemma_words_from_append, lemma_words_from_word, parsed, words, Command, ParseError,
};
use crate::console::{say, say_char};
use crate::mutex::{lemma_settled_none, lemma_settled_twice, settled, Mutex};
use crate::text::{decoded, str_eq, text_of};
use vstd::prelude::*;

verus! {

/// A built-in command.
#[derive(Debug, Clone, Copy, PartialEq, Eq, Structural)]
pub enum Builtin {
    /// Writes its arguments back.
    Echo,
}

/// No built-in command has the name that was looked up.
#[derive(Debug, Clone, Copy, PartialEq, Eq, Structural)]
pub struct NotFound;

/// One row of the table of built-in commands.
#[derive(Debug, Clone, Copy)]
pub struct FnDesc {
    pub func: Builtin,
    pub cmd: &'static str,
}

/// Number of rows in the table of built-in commands.
pub const BUILTIN_COUNT: usize = 1;

/// The table of built-in commands: each name with its command, in the order
/// in which a lookup tries them.
pub open spec fn builtin_table() -> Seq<(Seq<char>, Builtin)> {
    seq![("echo"@, Builtin::Echo)]
}

/// The table of built-in commands.
pub fn builtins() -> (table: [FnDesc; BUILTIN_COUNT])
    ensures
        table@.len() == builtin_table().len(),
        forall|i: int|
            0 <= i < table@.len() ==> (#[trigger] table@[i]).cmd@ == builtin_table()[i].0
                && table@[i].func == builtin_table()[i].1,
{
    [FnDesc { func: Builtin::Echo, cmd: "echo" }]
}

/// The command of the first row of `table` whose name is `name`.
pub open spec fn lookup_in(table: Seq<(Seq<char>, Builtin)>, name: Seq<char>) -> Result<
    Builtin,
    NotFound,
>
    decreases table.len(),
{
    if table.len() == 0 {
        Err(NotFound)
    } else if table[0].0 == name {
        Ok(table[0].1)
    } else {
        lookup_in(table.drop_first(), name)
    }
}

/// The built-in command called `name`, if there is one.
pub open spec fn lookup(name: Seq<char>) -> Result<Builtin, NotFound> {
    lookup_in(builtin_table(), name)
}

/// Looks `path` up in the table of built-in commands. Names match exactly,
/// and the first row that matches wins.
pub fn func_lookup(path: &str) -> (r: Result<Builtin, NotFound>)
    ensures
        r == lookup(path@),
{
    let table = builtins();
    let mut i: usize = 0;
    assert(builtin_table().skip(0) =~= builtin_table());
    while i < table.len()
        invariant
            i <= table@.len() == builtin_table().len(),
            forall|k: int|
                0 <= k < table@.len() ==> (#[trigger] table@[k]).cmd@ == builtin_table()[k].0
                    && table@[k].func == builtin_table()[k].1,
            lookup(path@) == lookup_in(builtin_table().skip(i as int), path@),
        decreases table@.len() - i,
    {
        let row = table[i];
        assert(builtin_table().skip(i as int).drop_first() =~= builtin_table().skip(i + 1));
        if str_eq(path, row.cmd) {
            return Ok(row.func);
        }
        i += 1;
    }
    Err(NotFound)
}

/// `words` written one after the other with one space between neighbours.
pub open spec fn joined(words: Seq<Seq<char>>) -> Seq<char>
    decreases words.len(),
{
    if words.len() == 0 {
        Seq::empty()
    } else if words.len() == 1 {
        words[0]
    } else {
        joined(words.drop_last()) + seq![' '] + words.last()
    }
}

/// What `echo` writes for a command: its words but the first, joined by
/// spaces, and a line feed.
pub open spec fn echo_text(words: Seq<Seq<char>>) -> Seq<char> {
    joined(words.skip(1)) + seq!['\n']
}

/// What the shell writes for a command that it does not know.
pub open spec fn unknown_text(path: Seq<char>) -> Seq<char> {
    "unknown command: $"@ + path + seq!['\n']
}

/// What running a command writes.
pub open spec fn exec_text(words: Seq<Seq<char>>) -> Seq<char>
    recommends
        words.len() >= 1,
{
    match lookup(words[0]) {
        Ok(Builtin::Echo) => echo_text(words),
        Err(NotFound) => unknown_text(words[0]),
    }
}

/// The `echo` command: writes every word after the first to the console,
/// with one space between neighbours, and ends the line. The console must
/// be free, and is free again on return: each lock taken to write was given
/// back before the next.
pub fn cmd_echo(command: &Command, console: &mut Mutex<String>)
    requires
        !old(console).held(),
    ensures
        !final(console).held(),
        final(console).value()@ == old(console).value()@ + echo_text(command@),
        settled(old(console).history(), final(console).history()),
{
    let ghost since = console.history();
    let ghost shown = console.value()@;
    proof {
        lemma_settled_none(since);
    }
    let args = command.args();
    let mut i: usize = 1;
    assert(command@.skip(1).take(0) =~= Seq::<Seq<char>>::empty());
    while i < args.len()
        invariant
            1 <= i <= args@.len() == command@.len(),
            forall|k: int| 0 <= k < args@.len() ==> (#[trigger] args@[k])@ == command@[k],
            !console.held(),
            since == old(console).history(),
            shown == old(console).value()@,
            settled(since, console.history()),
            console.value()@ == shown + joined(command@.skip(1).take(i - 1)),
        decreases args@.len() - i,
    {
        let ghost done = command@.skip(1).take(i - 1);
        let ghost more = command@.skip(1).take(i as int);
        assert(more.drop_last() =~= done);
        assert(more.last() == command@[i as int]);
        if i > 1 {
            say(console, " ", Ghost(since));
            proof {
                reveal_strlit(" ");
                assert(" "@ =~= seq![' ']);
            }
        }
        say(console, args[i], Ghost(since));
        assert(console.value()@ =~= shown + joined(more));
        i += 1;
    }
    assert(command@.skip(1).take(args@.len() - 1) =~= command@.skip(1));
    say(console, "\n", Ghost(since));
    proof {
        reveal_strlit("\n");
        assert("\n"@ =~= seq!['\n']);
        assert(console.value()@ =~= shown + echo_text(command@));
    }
}

/// Handles a command that is not built in: tells the user so, in one line
/// on the console. This counts as handled. The console must be free, and is
/// free again on return: each lock taken to write was given back before the
/// next.
pub fn ext_exec(path: &str, console: &mut Mutex<String>) -> (r: Result<(), ()>)
    requires
        !old(console).held(),
    ensures
        r is Ok,
        !final(console).held(),
        final(console).value()@ == old(console).value()@ + unknown_text(path@),
        settled(old(console).history(), final(console).history()),
{
    let ghost since = console.history();
    proof {
        lemma_settled_none(since);
    }
    say(console, "unknown command: $", Ghost(since));
    say(console, path, Ghost(since));
    say(console, "\n", Ghost(since));
    proof {
        reveal_strlit("\n");
        assert("\n"@ =~= seq!['\n']);
        assert(console.value()@ =~= old(console).value()@ + unknown_text(path@));
    }
    Ok(())
}

/// Runs a command: the built-in command that its path names, or the answer
/// to an unknown one. The console must be free, and is free again on return
/// whichever way the command went.
pub fn exec(command: &Command, console: &mut Mutex<String>)
    requires
        !old(console).held(),
    ensures
        !final(console).held(),
        final(console).value()@ == old(console).value()@ + exec_text(command@),
        settled(old(console).history(), final(console).history()),
{
    let path = command.path();
    match func_lookup(path) {
        Err(_) => {
            let _ = ext_exec(path, console);
        },
        Ok(Builtin::Echo) => {
            cmd_echo(command, console);
        },
    }
}

/// Why a finished line ran no command.
#[derive(Debug, Clone, Copy, PartialEq, Eq, Structural)]
pub enum Rejected {
    /// The bytes of the line are no text.
    NotText,
    /// The text of the line is no command.
    NotCommand(ParseError),
}

/// What a received byte did.
#[derive(Debug, Clone, Copy, PartialEq, Eq, Structural)]
pub enum Fed {
    /// The byte edited the line, which goes on.
    Editing,
    /// The byte ended the line, and the command on it ran.
    Ran,
    /// The byte ended the line, which held no command.
    Discarded(Rejected),
    /// The line is full: the byte was shown but not taken.
    Overflow,
}

/// Whether `byte` ends the line: a carriage return or a line feed.
pub open spec fn ends_line(byte: u8) -> bool {
    byte == 13 || byte == 10
}

/// Whether `byte` erases a character: a backspace or a delete.
pub open spec fn erases(byte: u8) -> bool {
    byte == 8 || byte == 127
}

/// What the shell writes before it reads a line.
pub open spec fn prompt_text(prefix: Seq<char>) -> Seq<char> {
    seq!['\r', '\n'] + prefix
}

/// What the shell writes when a line is no command.
pub open spec fn parse_error_text() -> Seq<char> {
    "Parse Error!!"@ + seq!['\n']
}

/// What the shell makes of a finished line.
pub open spec fn line_result(line: Seq<u8>) -> Result<Seq<Seq<char>>, Rejected> {
    match decoded(line) {
        None => Err(Rejected::NotText),
        Some(text) => match parsed(text) {
            Err(e) => Err(Rejected::NotCommand(e)),
            Ok(words) => Ok(words),
        },
    }
}

/// What the shell writes when `line` ends: it ends the line on the screen,
/// then either names the path of the command and runs it, or says that the
/// line could not be parsed.
pub open spec fn line_text(line: Seq<u8>) -> Seq<char> {
    seq!['\n'] + match line_result(line) {
        Ok(words) => "path: "@ + words[0] + seq!['\n'] + exec_text(words),
        Err(_) => parse_error_text(),
    }
}

/// The line after `byte` has arrived.
pub open spec fn line_after(line: Seq<u8>, byte: u8) -> Seq<u8> {
    if ends_line(byte) {
        Seq::empty()
    } else if erases(byte) {
        after_pop(line)
    } else {
        after_push(line, LINE_CAPACITY as nat, byte)
    }
}

/// What the shell writes when `byte` arrives.
pub open spec fn fed_text(prefix: Seq<char>, line: Seq<u8>, byte: u8) -> Seq<char> {
    if ends_line(byte) {
        line_text(line) + prompt_text(prefix)
    } else if erases(byte) {
        if line.len() > 0 {
            seq!['\u{8}', ' ', '\u{8}']
        } else {
            Seq::empty()
        }
    } else {
        seq![byte as char]
    }
}

/// What `byte` does to the shell.
pub open spec fn fed(line: Seq<u8>, byte: u8) -> Fed {
    if ends_line(byte) {
        match line_result(line) {
            Ok(_) => Fed::Ran,
            Err(why) => Fed::Discarded(why),
        }
    } else if erases(byte) || has_room(line, LINE_CAPACITY as nat) {
        Fed::Editing
    } else {
        Fed::Overflow
    }
}

/// The state of the shell between two bytes: its prompt and the line typed
/// so far.
pub struct Shell<'p> {
    prefix: &'p str,
    line: LineBuf,
}

impl<'p> Shell<'p> {
    /// The prompt.
    pub closed spec fn prefix(&self) -> Seq<char> {
        self.prefix@
    }

    /// The bytes of the line typed so far.
    pub closed spec fn line(&self) -> Seq<u8> {
        self.line@
    }

    /// A shell with the prompt `prefix` and an empty line.
    pub fn new(prefix: &'p str) -> (shell: Shell<'p>)
        ensures
            shell.prefix() == prefix@,
            shell.line() == Seq::<u8>::empty(),
    {
        Shell { prefix, line: LineBuf::new() }
    }

    /// The bytes of the line typed so far.
    pub fn typed(&self) -> (bytes: &[u8])
        ensures
            bytes@ == self.line(),
            bytes@.len() <= LINE_CAPACITY,
    {
        self.line.as_slice()
    }

    /// Writes the prompt to the console: a new line, then the prefix. The
    /// console must be free, and is free again on return.
    pub fn prompt(&self, console: &mut Mutex<String>)
        requires
            !old(console).held(),
        ensures
            !final(console).held(),
            final(console).value()@ == old(console).value()@ + prompt_text(self.prefix()),
            settled(old(console).history(), final(console).history()),
    {
        let ghost since = console.history();
        proof {
            lemma_settled_none(since);
        }
        say(console, "\r\n", Ghost(since));
        say(console, self.prefix, Ghost(since));
        proof {
            reveal_strlit("\r\n");
            assert("\r\n"@ =~= seq!['\r', '\n']);
            assert(console.value()@ =~= old(console).value()@ + prompt_text(self.prefix()));
        }
    }

    /// Ends the line: runs the command on it, or says why there is none.
    fn finish(&self, console: &mut Mutex<String>) -> (r: Fed)
        requires
            !old(console).held(),
        ensures
            !final(console).held(),
            final(console).value()@ == old(console).value()@ + line_text(self.line()),
            settled(old(console).history(), final(console).history()),
            r == fed(self.line(), 10),
    {
        let ghost since = console.history();
        proof {
            lemma_settled_none(since);
        }
        say(console, "\n", Ghost(since));
        proof {
            reveal_strlit("\n");
            assert("\n"@ =~= seq!['\n']);
        }
        let why = match text_of(self.line.as_slice()) {
            None => Rejected::NotText,
            Some(text) => match Command::parse(text) {
                Err(e) => Rejected::NotCommand(e),
                Ok(command) => {
                    say(console, "path: ", Ghost(since));
                    say(console, command.path(), Ghost(since));
                    say(console, "\n", Ghost(since));
                    let ghost before = console.history();
                    exec(&command, console);
                    proof {
                        lemma_settled_twice(since, before, console.history());
                    }
                    assert(console.value()@ =~= old(console).value()@ + line_text(self.line()));
                    return Fed::Ran;
                },
            },
        };
        say(console, "Parse Error!!", Ghost(since));
        say(console, "\n", Ghost(since));
        assert(console.value()@ =~= old(console).value()@ + line_text(self.line()));
        Fed::Discarded(why)
    }

    /// Takes one received byte.
    ///
    /// A carriage return or line feed ends the line: the shell runs it and
    /// prompts for the next. A backspace or delete takes the last byte off
    /// the line and wipes it from the screen; on an empty line it does
    /// nothing. Any other byte is shown and joins the line; if the line is
    /// full it is shown and the line stays as it is.
    ///
    /// What is shown goes to the console, which must be free and is free
    /// again on return: each lock taken to write was given back before the
    /// next was taken, also around the command that ran.
    pub fn feed(&mut self, byte: u8, console: &mut Mutex<String>) -> (r: Fed)
        requires
            !old(console).held(),
        ensures
            final(self).prefix() == old(self).prefix(),
            final(self).line() == line_after(old(self).line(), byte),
            !final(console).held(),
            final(console).value()@ == old(console).value()@ + fed_text(
                old(self).prefix(),
                old(self).line(),
                byte,
            ),
            settled(old(console).history(), final(console).history()),
            r == fed(old(self).line(), byte),
    {
        let ghost since = console.history();
        let ghost shown = console.value()@;
        proof {
            lemma_settled_none(since);
        }
        if byte == 13 || byte == 10 {
            let r = self.finish(console);
            let ghost before = console.history();
            self.prompt(console);
            proof {
                lemma_settled_twice(since, before, console.history());
            }
            self.line = LineBuf::new();
            assert(console.value()@ =~= shown + fed_text(
                old(self).prefix(),
                old(self).line(),
                byte,
            ));
            r
        } else if byte == 8 || byte == 127 {
            if self.line.pop().is_ok() {
                say_char(console, '\u{8}', Ghost(since));
                say_char(console, ' ', Ghost(since));
                say_char(console, '\u{8}', Ghost(since));
            }
            assert(console.value()@ =~= shown + fed_text(
                old(self).prefix(),
                old(self).line(),
                byte,
            ));
            Fed::Editing
        } else {
            say_char(console, byte as char, Ghost(since));
            assert(console.value()@ =~= shown + fed_text(
                old(self).prefix(),
                old(self).line(),
                byte,
            ));
            match self.line.push(byte) {
                Ok(()) => Fed::Editing,
                Err(_) => Fed::Overflow,
            }
        }
    }
}

/// What the shell writes while it takes the bytes of `input`, one after the
/// other, with `line` typed before them. It stops at a byte for which the
/// line has no room.
pub open spec fn session_text(prefix: Seq<char>, line: Seq<u8>, input: Seq<u8>) -> Seq<char>
    decreases input.len(),
{
    if input.len() == 0 {
        Seq::empty()
    } else if fed(line, input[0]) == Fed::Overflow {
        fed_text(prefix, line, input[0])
    } else {
        fed_text(prefix, line, input[0]) + session_text(
            prefix,
            line_after(line, input[0]),
            input.drop_first(),
        )
    }
}

/// Whether some byte of `input` finds the line full, with `line` typed
/// before them.
pub open spec fn session_overflows(line: Seq<u8>, input: Seq<u8>) -> bool
    decreases input.len(),
{
    input.len() > 0 && (fed(line, input[0]) == Fed::Overflow || session_overflows(
        line_after(line, input[0]),
        input.drop_first(),
    ))
}

/// Runs a shell with the prompt `prefix` over the received bytes `input` and
/// writes to the console what it shows: the prompt, then the answer to each
/// byte. A byte that finds the line full ends the session with `Overflow`.
///
/// The console must be free. The shell takes its lock for each write and
/// gives it back before the next, so the console is free again on return
/// and was never held across another attempt to lock it.
pub fn shell(prefix: &str, input: &[u8], console: &mut Mutex<String>) -> (r: Result<
    (),
    Overflow,
>)
    requires
        !old(console).held(),
    ensures
        !final(console).held(),
        final(console).value()@ == old(console).value()@ + prompt_text(prefix@) + session_text(
            prefix@,
            Seq::empty(),
            input@,
        ),
        settled(old(console).history(), final(console).history()),
        r is Err <==> session_overflows(Seq::empty(), input@),
{
    let ghost since = console.history();
    let ghost all = console.value()@ + prompt_text(prefix@) + session_text(
        prefix@,
        Seq::empty(),
        input@,
    );
    let mut sh = Shell::new(prefix);
    sh.prompt(console);
    let mut i: usize = 0;
    assert(input@.skip(0) =~= input@);
    while i < input.len()
        invariant
            i <= input@.len(),
            sh.prefix() == prefix@,
            !console.held(),
            since == old(console).history(),
            settled(since, console.history()),
            all == old(console).value()@ + prompt_text(prefix@) + session_text(
                prefix@,
                Seq::empty(),
                input@,
            ),
            all == console.value()@ + session_text(prefix@, sh.line(), input@.skip(i as int)),
            session_overflows(Seq::empty(), input@) == session_overflows(
                sh.line(),
                input@.skip(i as int),
            ),
        decreases input@.len() - i,
    {
        let ghost rest = input@.skip(i as int);
        let ghost shown = console.value()@;
        let ghost line = sh.line();
        let ghost before = console.history();
        assert(rest.drop_first() =~= input@.skip(i + 1));
        assert(rest[0] == input@[i as int]);
        let r = sh.feed(input[i], console);
        proof {
            lemma_settled_twice(since, before, console.history());
        }
        if r == Fed::Overflow {
            assert(console.value()@ =~= shown + session_text(prefix@, line, rest));
            return Err(Overflow);
        }
        assert(shown + session_text(prefix@, line, rest) =~= console.value()@ + session_text(
            prefix@,
            sh.line(),
            input@.skip(i + 1),
        ));
        i += 1;
    }
    assert(console.value()@ =~= console.value()@ + session_text(
        prefix@,
        sh.line(),
        input@.skip(i as int),
    ));
    Ok(())
}

/// Whatever byte arrives, the line stays within its capacity.
pub proof fn lemma_line_within_capacity(line: Seq<u8>, byte: u8)
    requires
        line.len() <= LINE_CAPACITY,
    ensures
        line_after(line, byte).len() <= LINE_CAPACITY,
{
}

/// A backspace after a byte that joined the line gives back the line as it
/// was before the byte.
pub proof fn lemma_backspace_undoes(line: Seq<u8>, byte: u8)
    requires
        line.len() < LINE_CAPACITY,
        !ends_line(byte),
        !erases(byte),
    ensures
        line_after(line_after(line, byte), 8) == line,
        line_after(line_after(line, byte), 127) == line,
{
    assert(line.push(byte).drop_last() =~= line);
}

/// A backspace on an empty line changes nothing and shows nothing.
pub proof fn lemma_backspace_on_empty(prefix: Seq<char>, byte: u8)
    requires
        erases(byte),
    ensures
        line_after(Seq::empty(), byte) == Seq::<u8>::empty(),
        fed_text(prefix, Seq::empty(), byte) == Seq::<char>::empty(),
{
}

/// Words joined by single spaces read back as the same words: what `echo`
/// writes on its line is, word for word, what it was given.
pub proof fn lemma_joined_words(list: Seq<Seq<char>>)
    requires
        forall|i: int| 0 <= i < list.len() ==> is_word(#[trigger] list[i]),
    ensures
        words(joined(list)) == list,
    decreases list.len(),
{
    if list.len() == 0 {
        assert(words(joined(list)) =~= list);
    } else if list.len() == 1 {
        lemma_words_from_word(list[0], Seq::empty());
        assert(Seq::<char>::empty() + list[0] =~= list[0]);
        assert(seq![list[0]] =~= list);
    } else {
        let front = list.drop_last();
        lemma_joined_words(front);
        lemma_words_from_append(joined(front), Seq::empty(), list.last());
        assert(front + seq![list.last()] =~= list);
    }
}

} // verus!
