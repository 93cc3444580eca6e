use serial_console::bounded::Overflow;
use serial_console::command::{Command, ParseError};
use serial_console::console::{kprint, kprint_char};
use serial_console::mutex::Mutex;
use serial_console::shell::{
    builtins, cmd_echo, exec, ext_exec, func_lookup, shell, Builtin, Fed, NotFound, Rejected,
    Shell, BUILTIN_COUNT,
};

fn feed_all(sh: &mut Shell, bytes: &[u8], out: &mut Mutex<String>) -> Vec<Fed> {
    bytes.iter().map(|b| sh.feed(*b, out)).collect()
}

fn shown(console: &mut Mutex<String>) -> String {
    assert!(!console.is_locked());
    let guard = console.try_lock().unwrap();
    let text = guard.get().clone();
    console.unlock(guard);
    text
}

fn clear(console: &mut Mutex<String>) {
    let mut guard = console.try_lock().unwrap();
    guard.get_mut().clear();
    console.unlock(guard);
}

#[test]
fn lookup_finds_echo() {
    assert_eq!(func_lookup("echo"), Ok(Builtin::Echo));
}

#[test]
fn lookup_misses_unknown_names() {
    assert_eq!(func_lookup("nosuch"), Err(NotFound));
    assert_eq!(func_lookup(""), Err(NotFound));
    assert_eq!(func_lookup("ech"), Err(NotFound));
    assert_eq!(func_lookup("echoo"), Err(NotFound));
    assert_eq!(func_lookup("Echo"), Err(NotFound));
}

#[test]
fn table_lists_echo() {
    let table = builtins();
    assert_eq!(table.len(), BUILTIN_COUNT);
    assert_eq!(table[0].cmd, "echo");
    assert_eq!(table[0].func, Builtin::Echo);
}

#[test]
fn unknown_command_line() {
    let mut out = Mutex::new(String::new());
    assert_eq!(ext_exec("nosuch", &mut out), Ok(()));
    assert_eq!(shown(&mut out), "unknown command: $nosuch\n");
}

#[test]
fn exec_unknown_command_writes_exactly_one_line() {
    let command = Command::parse("nosuch with args").ok().unwrap();
    let mut out = Mutex::new(String::from("kept"));
    exec(&command, &mut out);
    assert_eq!(shown(&mut out), "keptunknown command: $nosuch\n");
}

#[test]
fn echo_round_trip() {
    let command = Command::parse("echo hello world").ok().unwrap();
    let mut out = Mutex::new(String::new());
    exec(&command, &mut out);
    assert_eq!(shown(&mut out), "hello world\n");
}

#[test]
fn echo_joins_with_single_spaces() {
    let command = Command::parse("  echo   a  b    c  ").ok().unwrap();
    let mut out = Mutex::new(String::new());
    cmd_echo(&command, &mut out);
    assert_eq!(shown(&mut out), "a b c\n");
}

#[test]
fn echo_without_arguments_writes_empty_line() {
    let command = Command::parse("echo").ok().unwrap();
    let mut out = Mutex::new(String::from(">"));
    cmd_echo(&command, &mut out);
    assert_eq!(shown(&mut out), ">\n");
}

#[test]
fn echo_skips_whatever_the_first_word_is() {
    let command = Command::parse("other x").ok().unwrap();
    let mut out = Mutex::new(String::new());
    cmd_echo(&command, &mut out);
    assert_eq!(shown(&mut out), "x\n");
}

#[test]
fn prompt_is_new_line_and_prefix() {
    let sh = Shell::new("> ");
    let mut out = Mutex::new(String::new());
    sh.prompt(&mut out);
    assert_eq!(shown(&mut out), "\r\n> ");
}

#[test]
fn backspace_editing() {
    let mut sh = Shell::new("$ ");
    let mut out = Mutex::new(String::new());
    let steps = feed_all(&mut sh, b"ab\x08c", &mut out);
    assert_eq!(steps, vec![Fed::Editing; 4]);
    assert_eq!(sh.typed(), b"ac");
    assert_eq!(shown(&mut out), "ab\x08 \x08c");
    assert_eq!(sh.feed(b'\r', &mut out), Fed::Ran);
    assert_eq!(sh.typed(), b"");
    assert_eq!(
        shown(&mut out),
        "ab\x08 \x08c\npath: ac\nunknown command: $ac\n\r\n$ "
    );
}

#[test]
fn delete_erases_like_backspace() {
    let mut sh = Shell::new("");
    let mut out = Mutex::new(String::new());
    feed_all(&mut sh, b"xy\x7f", &mut out);
    assert_eq!(sh.typed(), b"x");
    assert_eq!(shown(&mut out), "xy\x08 \x08");
}

#[test]
fn backspace_on_empty_line_does_nothing() {
    let mut sh = Shell::new("> ");
    let mut out = Mutex::new(String::new());
    assert_eq!(sh.feed(8, &mut out), Fed::Editing);
    assert_eq!(sh.feed(127, &mut out), Fed::Editing);
    assert_eq!(shown(&mut out), "");
    assert_eq!(sh.typed(), b"");
}

#[test]
fn line_feed_ends_the_line_too() {
    let mut sh = Shell::new("> ");
    let mut out = Mutex::new(String::new());
    feed_all(&mut sh, b"echo hi", &mut out);
    clear(&mut out);
    assert_eq!(sh.feed(b'\n', &mut out), Fed::Ran);
    assert_eq!(shown(&mut out), "\npath: echo\nhi\n\r\n> ");
}

#[test]
fn empty_line_is_a_parse_error() {
    let mut sh = Shell::new("> ");
    let mut out = Mutex::new(String::new());
    assert_eq!(
        sh.feed(b'\r', &mut out),
        Fed::Discarded(Rejected::NotCommand(ParseError::Empty))
    );
    assert_eq!(shown(&mut out), "\nParse Error!!\n\r\n> ");
    clear(&mut out);
    feed_all(&mut sh, b"   ", &mut out);
    clear(&mut out);
    assert_eq!(
        sh.feed(b'\r', &mut out),
        Fed::Discarded(Rejected::NotCommand(ParseError::Empty))
    );
    assert_eq!(shown(&mut out), "\nParse Error!!\n\r\n> ");
}

#[test]
fn too_many_words_is_a_parse_error() {
    let mut sh = Shell::new("> ");
    let mut out = Mutex::new(String::new());
    let line = vec!["a"; 65].join(" ");
    feed_all(&mut sh, line.as_bytes(), &mut out);
    clear(&mut out);
    assert_eq!(
        sh.feed(b'\r', &mut out),
        Fed::Discarded(Rejected::NotCommand(ParseError::TooManyArgs))
    );
    assert_eq!(shown(&mut out), "\nParse Error!!\n\r\n> ");
    assert_eq!(sh.typed(), b"");
}

#[test]
fn bytes_that_are_no_text_are_rejected() {
    let mut sh = Shell::new("> ");
    let mut out = Mutex::new(String::new());
    feed_all(&mut sh, &[b'e', 0xFF, b'o'], &mut out);
    assert_eq!(shown(&mut out), "e\u{ff}o");
    clear(&mut out);
    assert_eq!(sh.feed(b'\r', &mut out), Fed::Discarded(Rejected::NotText));
    assert_eq!(shown(&mut out), "\nParse Error!!\n\r\n> ");
    assert_eq!(sh.typed(), b"");
}

#[test]
fn text_beyond_ascii_runs() {
    let mut sh = Shell::new("> ");
    let mut out = Mutex::new(String::new());
    feed_all(&mut sh, "echo é".as_bytes(), &mut out);
    clear(&mut out);
    assert_eq!(sh.feed(b'\r', &mut out), Fed::Ran);
    assert_eq!(shown(&mut out), "\npath: echo\né\n\r\n> ");
}

#[test]
fn full_line_reports_overflow_and_keeps_the_line() {
    let mut sh = Shell::new("> ");
    let mut out = Mutex::new(String::new());
    for _ in 0..512 {
        assert_eq!(sh.feed(b'a', &mut out), Fed::Editing);
    }
    clear(&mut out);
    assert_eq!(sh.feed(b'b', &mut out), Fed::Overflow);
    assert_eq!(shown(&mut out), "b");
    assert_eq!(sh.typed().len(), 512);
    assert!(sh.typed().iter().all(|b| *b == b'a'));
    assert_eq!(sh.feed(8, &mut out), Fed::Editing);
    assert_eq!(sh.typed().len(), 511);
    assert_eq!(sh.feed(b'c', &mut out), Fed::Editing);
    assert_eq!(sh.typed()[511], b'c');
}

#[test]
fn session_transcript() {
    let mut out = Mutex::new(String::new());
    let r = shell("> ", b"echo  hello world\rnosuch\r\r", &mut out);
    assert_eq!(r, Ok(()));
    assert_eq!(
        shown(&mut out),
        "\r\n> echo  hello world\npath: echo\nhello world\n\r\n> \
         nosuch\npath: nosuch\nunknown command: $nosuch\n\r\n> \
         \nParse Error!!\n\r\n> "
    );
}

#[test]
fn session_without_input_only_prompts() {
    let mut out = Mutex::new(String::from("boot"));
    assert_eq!(shell("sh# ", b"", &mut out), Ok(()));
    assert_eq!(shown(&mut out), "boot\r\nsh# ");
}

#[test]
fn session_stops_at_overflow() {
    let mut input = vec![b'x'; 512];
    input.extend_from_slice(b"yz\r");
    let mut out = Mutex::new(String::new());
    assert_eq!(shell("", &input, &mut out), Err(Overflow));
    let mut expected = String::from("\r\n");
    expected.push_str(&"x".repeat(512));
    expected.push('y');
    assert_eq!(shown(&mut out), expected);
}

#[test]
fn session_with_backspaces() {
    let mut out = Mutex::new(String::new());
    assert_eq!(shell("> ", b"ab\x08c\r", &mut out), Ok(()));
    assert_eq!(
        shown(&mut out),
        "\r\n> ab\x08 \x08c\npath: ac\nunknown command: $ac\n\r\n> "
    );
}

#[test]
fn kprint_appends_under_the_lock() {
    let mut console = Mutex::new(String::from("a"));
    kprint(&mut console, "bc\n");
    assert!(!console.is_locked());
    kprint_char(&mut console, 'd');
    kprint(&mut console, "");
    assert!(!console.is_locked());
    assert_eq!(shown(&mut console), "abc\nd");
}

#[test]
fn console_is_free_after_every_command() {
    let mut console = Mutex::new(String::new());
    let known = Command::parse("echo a b").ok().unwrap();
    let unknown = Command::parse("nosuch").ok().unwrap();
    exec(&known, &mut console);
    assert!(!console.is_locked());
    exec(&unknown, &mut console);
    assert!(!console.is_locked());
    assert_eq!(ext_exec("x", &mut console), Ok(()));
    assert!(!console.is_locked());
    cmd_echo(&known, &mut console);
    assert!(!console.is_locked());
    assert_eq!(
        shown(&mut console),
        "a b\nunknown command: $nosuch\nunknown command: $x\na b\n"
    );
}

#[test]
fn console_is_free_after_every_byte() {
    let mut console = Mutex::new(String::new());
    let mut sh = Shell::new("> ");
    sh.prompt(&mut console);
    assert!(!console.is_locked());
    for byte in b"echo hi\rnosuch\n\rab\x08\x7f\x08\r".iter() {
        sh.feed(*byte, &mut console);
        assert!(!console.is_locked());
        let guard = console.try_lock();
        assert!(guard.is_some());
        assert!(console.try_lock().is_none());
        console.unlock(guard.unwrap());
    }
    assert_eq!(shell("> ", b"echo hi\r", &mut console), Ok(()));
    assert!(!console.is_locked());
}
