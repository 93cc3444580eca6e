use serial_console::command::{Command, ParseError};

fn words_of(line: &str) -> Result<Vec<String>, ParseError> {
    match Command::parse(line) {
        Ok(command) => Ok(command.args().iter().map(|w| w.to_string()).collect()),
        Err(e) => Err(e),
    }
}

#[test]
fn parse_collapses_spaces() {
    let command = Command::parse("  echo  a   b ").ok().unwrap();
    assert_eq!(command.args(), &["echo", "a", "b"]);
    assert_eq!(command.path(), "echo");
}

#[test]
fn parse_empty_line_is_empty() {
    assert_eq!(Command::parse("").err(), Some(ParseError::Empty));
}

#[test]
fn parse_blank_line_is_empty() {
    assert_eq!(Command::parse("   ").err(), Some(ParseError::Empty));
    assert_eq!(Command::parse(" ").err(), Some(ParseError::Empty));
}

#[test]
fn parse_single_word() {
    assert_eq!(words_of("ls"), Ok(vec!["ls".to_string()]));
    assert_eq!(words_of(" ls"), Ok(vec!["ls".to_string()]));
    assert_eq!(words_of("ls "), Ok(vec!["ls".to_string()]));
}

#[test]
fn parse_splits_at_spaces_only() {
    assert_eq!(
        words_of("a\tb c\nd"),
        Ok(vec!["a\tb".to_string(), "c\nd".to_string()])
    );
}

#[test]
fn parse_keeps_text_beyond_ascii() {
    assert_eq!(
        words_of("écho  naïve 日本語 "),
        Ok(vec!["écho".to_string(), "naïve".to_string(), "日本語".to_string()])
    );
}

#[test]
fn parse_takes_sixty_four_words() {
    let line = vec!["w"; 64].join(" ");
    let command = Command::parse(&line).ok().unwrap();
    assert_eq!(command.args().len(), 64);
    assert_eq!(command.path(), "w");
}

#[test]
fn parse_rejects_sixty_five_words() {
    let line = vec!["w"; 65].join(" ");
    assert_eq!(Command::parse(&line).err(), Some(ParseError::TooManyArgs));
    let spaced = format!("  {}  ", vec!["word"; 200].join("   "));
    assert_eq!(Command::parse(&spaced).err(), Some(ParseError::TooManyArgs));
}

#[test]
fn parse_words_are_slices_of_the_line() {
    let line = String::from("echo hello");
    let command = Command::parse(&line).ok().unwrap();
    let word = command.args()[1];
    let offset = word.as_ptr() as usize - line.as_ptr() as usize;
    assert_eq!(offset, 5);
    assert_eq!(word, "hello");
}

#[test]
fn path_is_first_word() {
    let command = Command::parse("  run fast now").ok().unwrap();
    assert_eq!(command.path(), "run");
    assert_eq!(command.args()[0], "run");
    assert_eq!(command.args()[2], "now");
}
