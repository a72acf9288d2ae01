use site::generic;
use site::generic::Resettable;
use site::vnpccr::{R, VNPCCR_SPEC, W};

fn reader(bits: u32) -> R {
    R::from(generic::R { bits })
}

fn writer(bits: u32) -> W {
    W::from(generic::W { bits })
}

#[test]
fn reader_shows_the_lowest_fourteen_bits() {
    assert_eq!(reader(0xffff_ffff).npsize().bits, 0x3fff);
    assert_eq!(reader(0xabcd_1234).npsize().bits, 0x1234);
    assert_eq!(reader(0x0000_4000).npsize().bits, 0);
    assert_eq!(reader(0x8000_4001).bits, 0x8000_4001);
}

#[test]
fn field_write_keeps_the_other_bits() {
    let mut w = writer(0xabcd_5678);
    w.npsize().bits(0x0123);
    assert_eq!(w.bits, 0xabcd_4123);
    assert_eq!(reader(w.bits).npsize().bits, 0x0123);
}

#[test]
fn field_write_drops_what_does_not_fit() {
    let mut w = writer(0);
    w.npsize().bits(0xffff);
    assert_eq!(w.bits, 0x3fff);
}

#[test]
fn second_field_write_counts() {
    let mut w = writer(0xffff_ffff);
    w.npsize().bits(0).npsize().bits(7);
    assert_eq!(w.bits, 0xffff_c007);
}

#[test]
fn rewriting_the_field_changes_nothing() {
    let mut w = writer(0x1234_5678);
    let held = reader(w.bits).npsize().bits;
    w.npsize().bits(held);
    assert_eq!(w.bits, 0x1234_5678);
}

#[test]
fn register_write_replaces_all_bits() {
    let mut w = writer(0xffff_ffff);
    w.bits(0x0001_8000).npsize().bits(2);
    assert_eq!(w.bits, 0x0001_8002);
    w.bits = 5;
    assert_eq!(w.bits, 5);
}

#[test]
fn reset_is_zero() {
    assert_eq!(VNPCCR_SPEC::reset_value(), 0);
}
