use brainwasm::bf::{add_signed, Address, Byte, TAPE_SIZE};

#[test]
fn cell_wraps_up_and_down() {
    assert_eq!(Byte(255).add_signed(1), Byte(0));
    assert_eq!(Byte(0).add_signed(-1), Byte(255));
    assert_eq!(Byte(10).add_signed(-300), Byte(222));
    assert_eq!(Byte(200).add(Byte(100)), Byte(44));
}

#[test]
fn cell_add_assign_wraps() {
    let mut b = Byte(254);
    b.add_assign(3);
    assert_eq!(b, Byte(1));
    assert_eq!(Byte(7).as_i32(), 7);
}

#[test]
fn cursor_wraps_at_tape_end() {
    let mut a = Address(TAPE_SIZE - 1);
    a.add_assign(1);
    assert_eq!(a, Address(0));
    a.add_assign(-1);
    assert_eq!(a, Address(TAPE_SIZE - 1));
}

#[test]
fn add_signed_normalises_negative_sums() {
    assert_eq!(add_signed(0, -1, 256), 255);
    assert_eq!(add_signed(3, -515, 256), 0);
    assert_eq!(add_signed(5, 7, 10), 2);
    assert_eq!(add_signed(0, isize::MIN, 256), 0);
    assert_eq!(add_signed(usize::MAX, 1, 65536), 0);
}
