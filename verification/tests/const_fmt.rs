use genuint::const_fmt::{panic_message, ConstFmt, MSG_SIZE};
use genuint::maxint::{u_max_int_strlen, u_max_int_write};

#[test]
fn strlen_examples() {
    assert_eq!(u_max_int_strlen(0), 1);
    assert_eq!(u_max_int_strlen(9), 1);
    assert_eq!(u_max_int_strlen(10), 2);
    assert_eq!(u_max_int_strlen(12345), 5);
    assert_eq!(u_max_int_strlen(u128::MAX), 39);
}

#[test]
fn write_number() {
    let mut buf = [b'_'; 8];
    let rest = u_max_int_write(1234, &mut buf);
    assert_eq!(rest.len(), 4);
    assert_eq!(&buf, b"1234____");
    let mut buf = [b'_'; 1];
    let rest = u_max_int_write(0, &mut buf);
    assert!(rest.is_empty());
    assert_eq!(&buf, b"0");
}

#[test]
fn fmt_write_fits() {
    let parts = vec![ConstFmt::Str("Array length "), ConstFmt::PrimUint(12), ConstFmt::Str(" ok")];
    let msg = ConstFmt::Concat(&parts);
    let mut buf = [b'_'; 24];
    let rest_len = msg.write(&mut buf).map(|r| r.len());
    assert_eq!(rest_len, Some(6));
    assert_eq!(&buf, b"Array length 12 ok______");
}

#[test]
fn fmt_write_truncates() {
    let mut buf = [b'_'; 3];
    assert!(ConstFmt::PrimUint(123456).write(&mut buf).is_none());
    assert_eq!(&buf, b"123");
    let mut buf = [b'_'; 3];
    assert!(ConstFmt::Str("hello").write(&mut buf).is_none());
    assert_eq!(&buf, b"hel");
    let parts = vec![ConstFmt::Str("ab"), ConstFmt::PrimUint(987)];
    let mut buf = [b'_'; 4];
    assert!(ConstFmt::Concat(&parts).write(&mut buf).is_none());
    assert_eq!(&buf, b"ab98");
    let mut empty: [u8; 0] = [];
    assert!(ConstFmt::PrimUint(0).write(&mut empty).is_none());
    assert!(ConstFmt::Str("").write(&mut empty).is_some());
}

#[test]
fn panic_message_short_and_long() {
    let msg = panic_message(ConstFmt::Str("too big"));
    assert_eq!(msg, b"too big".to_vec());
    let long = "x".repeat(2000);
    let msg = panic_message(ConstFmt::Str(&long));
    assert_eq!(msg.len(), MSG_SIZE);
    assert_eq!(&msg[MSG_SIZE - 3..], b"...");
    assert!(msg[..MSG_SIZE - 3].iter().all(|b| *b == b'x'));
}
