use cpio_archive::base::{
    copy_cstr, copy_str, ptr_to_str, text_to_buf, BufFmtWriter, LibcReturn, NulError, StrErr,
    Utf8CStr,
};
use cpio_archive::text::find_nul;

#[test]
fn copy_str_terminates_and_truncates() {
    let mut buf = [0xaau8; 8];
    assert_eq!(copy_str(&mut buf, b"abc"), 3);
    assert_eq!(buf, [b'a', b'b', b'c', 0, 0xaa, 0xaa, 0xaa, 0xaa]);
    let mut buf = [0xaau8; 4];
    assert_eq!(copy_str(&mut buf, b"abcdef"), 3);
    assert_eq!(buf, [b'a', b'b', b'c', 0]);
    let mut buf = [0xaau8; 1];
    assert_eq!(copy_str(&mut buf, b"abc"), 0);
    assert_eq!(buf, [0]);
    let mut buf = [0xaau8; 3];
    assert_eq!(copy_str(&mut buf, b""), 0);
    assert_eq!(buf, [0, 0xaa, 0xaa]);
}

#[test]
fn writer_appends_until_the_buffer_is_full() {
    let mut buf = [0xaau8; 8];
    let mut w = BufFmtWriter::new(&mut buf);
    w.write_str("ab");
    assert_eq!(w.used, 2);
    w.write_str("cde");
    assert_eq!(w.used, 5);
    w.write_str("fghij");
    assert_eq!(w.used, 7);
    w.write_str("k");
    assert_eq!(w.used, 7);
    assert_eq!(&buf, b"abcdefg\0");
}

#[test]
fn text_to_buf_matches_writer() {
    let mut buf = [0xaau8; 6];
    assert_eq!(text_to_buf(&mut buf, "hi"), 2);
    assert_eq!(buf, [b'h', b'i', 0, 0xaa, 0xaa, 0xaa]);
    assert_eq!(text_to_buf(&mut buf, "hello world"), 5);
    assert_eq!(&buf, b"hello\0");
    let mut one = [0xaau8; 1];
    assert_eq!(text_to_buf(&mut one, "x"), 0);
    assert_eq!(one, [0xaa]);
}

#[test]
fn validated_string_from_bytes() {
    let s = Utf8CStr::from_bytes(b"h\xc3\xa9llo\0").unwrap();
    assert_eq!(s.as_str(), "h\u{e9}llo");
    assert_eq!(s.as_bytes(), "h\u{e9}llo".as_bytes());
    assert_eq!(s.as_bytes_with_nul(), b"h\xc3\xa9llo\0");
    assert!(matches!(
        Utf8CStr::from_bytes(b"abc"),
        Err(StrErr::CStrError(NulError::NotNulTerminated))
    ));
    assert!(matches!(
        Utf8CStr::from_bytes(b""),
        Err(StrErr::CStrError(NulError::NotNulTerminated))
    ));
    assert!(matches!(
        Utf8CStr::from_bytes(b"a\0b\0"),
        Err(StrErr::CStrError(NulError::InteriorNul { position: 1 }))
    ));
    assert!(matches!(Utf8CStr::from_bytes(b"\xff\0"), Err(StrErr::Utf8Error(_))));
    assert_eq!(Utf8CStr::from_bytes(b"\0").unwrap().as_str(), "");
}

#[test]
fn validated_string_from_pointer_and_string() {
    assert!(matches!(Utf8CStr::from_ptr(None), Err(StrErr::NullPointerError)));
    let s = Utf8CStr::from_ptr(Some(b"abc\0def\0")).unwrap();
    assert_eq!(s.as_str(), "abc");
    assert_eq!(s.as_bytes_with_nul(), b"abc\0");
    assert!(matches!(
        Utf8CStr::from_ptr(Some(b"abc")),
        Err(StrErr::CStrError(NulError::NotNulTerminated))
    ));
    assert!(matches!(Utf8CStr::from_ptr(Some(b"\xc3\0")), Err(StrErr::Utf8Error(_))));
    let t = Utf8CStr::from_string("ramdisk.cpio");
    assert_eq!(t.as_bytes_with_nul(), b"ramdisk.cpio\0");
    assert_eq!(t.as_str(), "ramdisk.cpio");
}

#[test]
fn copy_cstr_copies_with_terminator() {
    let s = Utf8CStr::from_string("abc");
    let mut buf = [0xaau8; 6];
    assert_eq!(copy_cstr(&mut buf, &s), 3);
    assert_eq!(buf, [b'a', b'b', b'c', 0, 0xaa, 0xaa]);
    let mut small = [0xaau8; 2];
    assert_eq!(copy_cstr(&mut small, &s), 1);
    assert_eq!(small, [b'a', b'b']);
}

#[test]
fn pointer_text_for_messages() {
    assert_eq!(ptr_to_str(None), "(null)");
    assert_eq!(ptr_to_str(Some(b"error\0junk")), "error");
    assert_eq!(ptr_to_str(Some(b"no end")), "no end");
    assert_eq!(ptr_to_str(Some(b"\xff\xff\0")), "");
    assert_eq!(find_nul(b"ab\0c\0", 0), Some(2));
    assert_eq!(find_nul(b"ab\0c\0", 3), Some(4));
    assert_eq!(find_nul(b"abc", 1), None);
}

#[test]
fn return_values_below_zero_are_errors() {
    assert!(!5i32.is_error());
    assert!(!0i32.is_error());
    assert!((-1i32).is_error());
    assert!((-1isize).is_error());
    assert!(!7isize.is_error());
    assert_eq!(5i32.check_os_err().unwrap(), 5);
    assert_eq!(0isize.check_os_err().unwrap(), 0);
    assert!((-1i32).check_os_err().is_err());
    assert!((-3isize).check_os_err().is_err());
}
