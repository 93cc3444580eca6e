use serial_console::bounded::{ArgVec, LineBuf, Overflow, Underflow, ARG_CAPACITY, LINE_CAPACITY};

#[test]
fn new_line_buffer_is_empty() {
    let buf = LineBuf::new();
    assert!(buf.is_empty());
    assert_eq!(buf.len(), 0);
    assert_eq!(buf.as_slice(), &[] as &[u8]);
}

#[test]
fn push_keeps_insertion_order() {
    let mut buf = LineBuf::new();
    assert_eq!(buf.push(b'x'), Ok(()));
    assert_eq!(buf.push(b'y'), Ok(()));
    assert_eq!(buf.push(b'z'), Ok(()));
    assert_eq!(buf.as_slice(), b"xyz");
    assert_eq!(buf.len(), 3);
    assert!(!buf.is_empty());
}

#[test]
fn pop_returns_last_pushed() {
    let mut buf = LineBuf::new();
    buf.push(1).unwrap();
    buf.push(2).unwrap();
    buf.push(3).unwrap();
    assert_eq!(buf.pop(), Ok(3));
    assert_eq!(buf.as_slice(), &[1, 2]);
    assert_eq!(buf.pop(), Ok(2));
    assert_eq!(buf.pop(), Ok(1));
    assert!(buf.is_empty());
}

#[test]
fn pop_on_empty_is_underflow_and_changes_nothing() {
    let mut buf = LineBuf::new();
    assert_eq!(buf.pop(), Err(Underflow));
    assert_eq!(buf.len(), 0);
    buf.push(9).unwrap();
    assert_eq!(buf.pop(), Ok(9));
    assert_eq!(buf.pop(), Err(Underflow));
    assert_eq!(buf.as_slice(), &[] as &[u8]);
}

#[test]
fn push_past_capacity_is_overflow_and_changes_nothing() {
    let mut buf = LineBuf::new();
    for i in 0..LINE_CAPACITY {
        assert_eq!(buf.push((i % 251) as u8), Ok(()));
    }
    assert_eq!(buf.len(), 512);
    let before: Vec<u8> = buf.as_slice().to_vec();
    assert_eq!(buf.push(0xAA), Err(Overflow));
    assert_eq!(buf.push(0xBB), Err(Overflow));
    assert_eq!(buf.len(), 512);
    assert_eq!(buf.as_slice(), &before[..]);
    assert_eq!(before[511], (511 % 251) as u8);
}

#[test]
fn pop_after_full_makes_room_for_one() {
    let mut buf = LineBuf::new();
    for _ in 0..LINE_CAPACITY {
        buf.push(7).unwrap();
    }
    assert_eq!(buf.pop(), Ok(7));
    assert_eq!(buf.len(), 511);
    assert_eq!(buf.push(8), Ok(()));
    assert_eq!(buf.push(9), Err(Overflow));
    assert_eq!(buf.as_slice()[511], 8);
}

#[test]
fn length_stays_within_capacity_over_mixed_operations() {
    let mut buf = LineBuf::new();
    let mut model: Vec<u8> = Vec::new();
    let mut seed: u32 = 12345;
    for _ in 0..5000 {
        seed = seed.wrapping_mul(1664525).wrapping_add(1013904223);
        let byte = (seed >> 8) as u8;
        if (seed >> 24) % 3 == 0 {
            let got = buf.pop();
            assert_eq!(got.ok(), model.pop());
        } else {
            let got = buf.push(byte);
            if model.len() < LINE_CAPACITY {
                model.push(byte);
                assert_eq!(got, Ok(()));
            } else {
                assert_eq!(got, Err(Overflow));
            }
        }
        assert!(buf.len() <= LINE_CAPACITY);
        assert_eq!(buf.as_slice(), &model[..]);
    }
}

#[test]
fn capacities_are_as_designed() {
    assert_eq!(LINE_CAPACITY, 512);
    assert_eq!(ARG_CAPACITY, 64);
}

#[test]
fn arg_vec_holds_words_in_order() {
    let mut args = ArgVec::new();
    assert!(args.is_empty());
    assert_eq!(args.push("one"), Ok(()));
    assert_eq!(args.push("two"), Ok(()));
    assert_eq!(args.len(), 2);
    assert_eq!(args.as_slice(), &["one", "two"]);
    assert!(!args.is_empty());
}

#[test]
fn arg_vec_overflows_after_sixty_four() {
    let mut args = ArgVec::new();
    for _ in 0..ARG_CAPACITY {
        assert_eq!(args.push("w"), Ok(()));
    }
    assert_eq!(args.len(), 64);
    assert_eq!(args.push("last"), Err(Overflow));
    assert_eq!(args.len(), 64);
    assert!(args.as_slice().iter().all(|w| *w == "w"));
}
