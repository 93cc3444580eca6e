use serial_console::text::{str_eq, text_of};

#[test]
fn str_eq_compares_contents() {
    assert!(str_eq("echo", "echo"));
    assert!(str_eq("", ""));
    assert!(!str_eq("echo", "echp"));
    assert!(!str_eq("echo", "ech"));
    assert!(!str_eq("", " "));
    assert!(str_eq("naïve", "naïve"));
    assert!(!str_eq("naïve", "naive"));
    let a = String::from("same");
    let b = String::from("same");
    assert!(str_eq(&a, &b));
}

#[test]
fn text_of_accepts_utf8() {
    assert_eq!(text_of(b"echo hi"), Some("echo hi"));
    assert_eq!(text_of(b""), Some(""));
    assert_eq!(text_of(&[0xC3, 0xA9]), Some("é"));
}

#[test]
fn text_of_rejects_other_bytes() {
    assert_eq!(text_of(&[0xFF]), None);
    assert_eq!(text_of(&[b'a', 0xC3]), None);
    assert_eq!(text_of(&[0xC3, 0x28]), None);
    assert_eq!(text_of(&[0xED, 0xA0, 0x80]), None);
}
