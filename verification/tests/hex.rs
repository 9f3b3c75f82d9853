use rollup_kernel::hex::{push_hex, unhex};

fn hex_of(bytes: &[u8]) -> Vec<u8> {
    let mut out = Vec::new();
    push_hex(&mut out, bytes);
    out
}

#[test]
fn bytes_are_written_as_two_lower_case_digits_each() {
    assert_eq!(hex_of(&[]), b"".to_vec());
    assert_eq!(hex_of(&[0x00, 0x09, 0x0a, 0xf0, 0xff]), b"00090af0ff".to_vec());
    assert_eq!(hex_of(&[0x12, 0xab]), b"12ab".to_vec());
}

#[test]
fn digits_are_appended_to_what_is_there() {
    let mut out = b"0x".to_vec();
    push_hex(&mut out, &[0xde, 0xad]);
    assert_eq!(out, b"0xdead".to_vec());
}

#[test]
fn hexadecimal_text_is_read_in_either_case() {
    assert_eq!(unhex(b""), Some(vec![]));
    assert_eq!(unhex(b"00090af0ff"), Some(vec![0x00, 0x09, 0x0a, 0xf0, 0xff]));
    assert_eq!(unhex(b"DeadBEEF"), Some(vec![0xde, 0xad, 0xbe, 0xef]));
}

#[test]
fn text_that_is_not_hexadecimal_is_refused() {
    assert_eq!(unhex(b"0"), None);
    assert_eq!(unhex(b"abc"), None);
    assert_eq!(unhex(b"0g"), None);
    assert_eq!(unhex(b"g0"), None);
    assert_eq!(unhex(b"0x12"), None);
    assert_eq!(unhex(b"12 4"), None);
    assert_eq!(unhex(b"/:"), None);
    assert_eq!(unhex(b"@G"), None);
    assert_eq!(unhex(b"`g"), None);
}

#[test]
fn reading_what_was_written_gives_the_bytes_back() {
    let bytes: Vec<u8> = (0..=255).collect();
    assert_eq!(unhex(&hex_of(&bytes)), Some(bytes));
}
