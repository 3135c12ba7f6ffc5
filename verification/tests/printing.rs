use coop_runtime::console::{putchar, puts};

#[test]
fn putchar_appends_one_byte() {
    let mut out = Vec::new();
    putchar(&mut out, 'a');
    putchar(&mut out, 'b');
    assert_eq!(out, vec![b'a', b'b']);
}

#[test]
fn putchar_truncates_to_the_low_byte_of_the_code_point() {
    let mut out = Vec::new();
    putchar(&mut out, 'é');
    putchar(&mut out, '€');
    assert_eq!(out, vec![0xE9, 0xAC]);
}

#[test]
fn puts_appends_every_byte_in_order() {
    let mut out = vec![b'x'];
    puts(&mut out, "hi!");
    assert_eq!(out, vec![b'x', b'h', b'i', b'!']);
}

#[test]
fn puts_of_empty_writes_nothing() {
    let mut out = vec![b'x'];
    puts(&mut out, "");
    assert_eq!(out, vec![b'x']);
}
