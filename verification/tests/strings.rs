use coupler::strings::{copy_cstring, copy_wstring};

#[test]
fn wstring_fits_with_terminator() {
    let mut dst = [0xffffu16; 8];
    copy_wstring("abc", &mut dst);
    assert_eq!(dst, [97, 98, 99, 0, 0xffff, 0xffff, 0xffff, 0xffff]);
}

#[test]
fn wstring_truncated_keeps_terminator_in_last_place() {
    let mut dst = [0xffffu16; 3];
    copy_wstring("abcdef", &mut dst);
    assert_eq!(dst, [97, 98, 0]);
}

#[test]
fn wstring_exactly_full_ends_in_zero() {
    let mut dst = [0xffffu16; 3];
    copy_wstring("abc", &mut dst);
    assert_eq!(dst, [97, 98, 0]);
}

#[test]
fn wstring_encodes_surrogate_pairs() {
    let mut dst = [0xffffu16; 5];
    copy_wstring("é😀", &mut dst);
    assert_eq!(dst, [0x00e9, 0xd83d, 0xde00, 0, 0xffff]);
}

#[test]
fn wstring_into_empty_buffer_does_nothing() {
    let mut dst: [u16; 0] = [];
    copy_wstring("abc", &mut dst);
    assert_eq!(dst.len(), 0);
}

#[test]
fn cstring_fits_with_terminator() {
    let mut dst = [-1i8; 6];
    copy_cstring("hi", &mut dst);
    assert_eq!(dst, [104, 105, 0, -1, -1, -1]);
}

#[test]
fn cstring_truncated_keeps_terminator_in_last_place() {
    let mut dst = [-1i8; 4];
    copy_cstring("Audio Module Class", &mut dst);
    assert_eq!(dst, [65, 117, 100, 0]);
}

#[test]
fn cstring_with_interior_nul_is_empty() {
    let mut dst = [-1i8; 4];
    copy_cstring("a\0b", &mut dst);
    assert_eq!(dst, [0, -1, -1, -1]);
}

#[test]
fn cstring_keeps_utf8_bytes() {
    let mut dst = [-1i8; 4];
    copy_cstring("é", &mut dst);
    assert_eq!(dst, [0xc3u8 as i8, 0xa9u8 as i8, 0, -1]);
}
