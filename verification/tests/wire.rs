//! The byte cursor.

use frontdoor::wire::Parser;

#[test]
fn integers_are_big_endian() {
    let bytes = [1u8, 2, 3, 4, 5, 6, 7];
    let mut p = Parser::new(&bytes);
    assert_eq!(p.remaining(), 7);
    assert_eq!(p.u8(), Some(1));
    assert_eq!(p.u16(), Some(0x0203));
    assert_eq!(p.u24(), Some(0x040506));
    assert_eq!(p.tail(), &[7]);
    assert_eq!(p.remaining(), 1);
}

#[test]
fn a_read_past_the_end_takes_nothing() {
    let bytes = [0xffu8, 0xfe];
    let mut p = Parser::new(&bytes);
    assert_eq!(p.u24(), None);
    assert_eq!(p.skip(3), Err(()));
    assert_eq!(p.skip(usize::MAX), Err(()));
    assert_eq!(p.tail(), &[0xff, 0xfe]);
    assert_eq!(p.u16(), Some(0xfffe));
    assert_eq!(p.u16(), None);
    assert_eq!(p.u8(), None);
    assert_eq!(p.remaining(), 0);
    assert_eq!(p.skip(0), Ok(()));
}

#[test]
fn skipping_moves_on() {
    let bytes = [1u8, 2, 3];
    let mut p = Parser::new(&bytes);
    assert_eq!(p.skip(2), Ok(()));
    assert_eq!(p.u8(), Some(3));
}
