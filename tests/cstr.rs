use crlib::{cstr_len, ensure_null_terminated, matchpcchar};

#[test]
fn copy_fits_and_terminates() {
    let input = b"abc";
    let mut out = [7u8; 6];
    assert_eq!(ensure_null_terminated(input, &mut out), Ok(()));
    assert_eq!(out, [b'a', b'b', b'c', 0, 7, 7]);
}

#[test]
fn copy_exact_capacity() {
    let input = b"abcd";
    let mut out = [9u8; 5];
    assert_eq!(ensure_null_terminated(input, &mut out), Ok(()));
    assert_eq!(out, [b'a', b'b', b'c', b'd', 0]);
}

#[test]
fn copy_too_small_leaves_output() {
    let input = b"abcd";
    let mut out = [9u8; 4];
    assert_eq!(ensure_null_terminated(input, &mut out), Err(()));
    assert_eq!(out, [9u8; 4]);
}

#[test]
fn copy_into_empty_output_fails() {
    let mut out: [u8; 0] = [];
    assert_eq!(ensure_null_terminated(b"", &mut out), Err(()));
}

#[test]
fn copy_empty_input() {
    let mut out = [5u8; 2];
    assert_eq!(ensure_null_terminated(b"", &mut out), Ok(()));
    assert_eq!(out, [0, 5]);
}

#[test]
fn copy_already_terminated_input() {
    let input = b"hi\0";
    let mut out = [1u8; 5];
    assert_eq!(ensure_null_terminated(input, &mut out), Ok(()));
    assert_eq!(out, [b'h', b'i', 0, 0, 1]);
}

#[test]
fn length_stops_at_terminator() {
    assert_eq!(cstr_len(b"hello\0world"), 5);
    assert_eq!(cstr_len(b"\0"), 0);
}

#[test]
fn length_without_terminator_is_whole_slice() {
    assert_eq!(cstr_len(b"abc"), 3);
    assert_eq!(cstr_len(b""), 0);
}

#[test]
fn equal_strings_match() {
    assert!(matchpcchar(b"hello\0", b"hello\0"));
}

#[test]
fn different_strings_do_not_match() {
    assert!(!matchpcchar(b"hello\0", b"world\0"));
}

#[test]
fn prefix_does_not_match() {
    assert!(!matchpcchar(b"hell\0", b"hello\0"));
    assert!(!matchpcchar(b"hello\0", b"hell\0"));
}

#[test]
fn bytes_after_terminator_are_ignored() {
    assert!(matchpcchar(b"ab\0xyz", b"ab\0q"));
}

#[test]
fn empty_strings_match() {
    assert!(matchpcchar(b"\0", b"\0abc"));
}

#[test]
fn long_equal_strings_match() {
    let mut a = vec![b'x'; 999];
    a.push(0);
    let b = a.clone();
    assert!(matchpcchar(&a, &b));
    let mut c = a.clone();
    c[998] = b'y';
    assert!(!matchpcchar(&a, &c));
}
