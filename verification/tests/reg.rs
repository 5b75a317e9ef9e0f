use remus::reg::Register;
use remus::{Address, Cell};

#[test]
fn reg_new_works() {
    // 8-bit register
    let r8 = Register::<u8>::new();
    assert_eq!(r8.0, 0_u8);

    // 16-bit register
    let r16 = Register::<u16>::new();
    assert_eq!(r16.0, 0_u16);

    // 32-bit register
    let r32 = Register::<u32>::new();
    assert_eq!(r32.0, 0_u32);

    // 64-bit register
    let r64 = Register::<u64>::new();
    assert_eq!(r64.0, 0_u64);

    // 128-bit register
    let r128 = Register::<u128>::new();
    assert_eq!(r128.0, 0_u128);
}

#[test]
fn reg_from_works() {
    // 8-bit register
    let r8 = Register::<u8>::from(0x01_u8);
    assert_eq!(r8.0, 0x01_u8);

    // 16-bit register
    let r16 = Register::<u16>::from(0x0123_u16);
    assert_eq!(r16.0, 0x0123_u16);

    // 32-bit register
    let r32 = Register::<u32>::from(0x0123_4567_u32);
    assert_eq!(r32.0, 0x0123_4567_u32);

    // 64-bit register
    let r64 = Register::<u64>::from(0x0123_4567_89ab_cdef_u64);
    assert_eq!(r64.0, 0x0123_4567_89ab_cdef_u64);

    // 128-bit register
    let r128 = Register::<u128>::from(0x0123_4567_89ab_cdef_0123_4567_89ab_cdef_u128);
    assert_eq!(r128.0, 0x0123_4567_89ab_cdef_0123_4567_89ab_cdef_u128);
}

#[test]
fn reg_address_read_works() {
    // 8-bit register
    let r8 = Register::<u8>::from(0x01);
    assert_eq!(r8.read(0), 0x01);

    // 16-bit register
    let r16 = Register::<u16>::from(0x0123);
    assert_eq!(r16.read(0), 0x0123);

    // 32-bit register
    let r32 = Register::<u32>::from(0x0123_4567);
    assert_eq!(r32.read(0), 0x0123_4567);

    // 64-bit register
    let r64 = Register::<u64>::from(0x0123_4567_89ab_cdef);
    assert_eq!(r64.read(0), 0x0123_4567_89ab_cdef);

    // 128-bit register
    let r128 = Register::<u128>::from(0x0123_4567_89ab_cdef_0123_4567_89ab_cdef);
    assert_eq!(r128.read(0), 0x0123_4567_89ab_cdef_0123_4567_89ab_cdef);
}

#[test]
fn reg_address_write_works() {
    // 8-bit register
    let mut r8 = Register::<u8>::new();
    r8.write(0, 0xaa);
    assert_eq!(r8.load(), 0xaa);

    // 16-bit register
    let mut r16 = Register::<u16>::new();
    r16.write(1, 0xbb);
    assert_eq!(r16.load(), 0xbb);

    // 32-bit register
    let mut r32 = Register::<u32>::new();
    r32.write(2, 0xcc);
    assert_eq!(r32.load(), 0xcc);

    // 64-bit register
    let mut r64 = Register::<u64>::new();
    r64.write(4, 0xdd);
    assert_eq!(r64.load(), 0xdd);

    // 128-bit register
    let mut r128 = Register::<u128>::new();
    r128.write(8, 0xee);
    assert_eq!(r128.load(), 0xee);
}

#[test]
fn cell_load_works() {
    // 8-bit register
    let r8 = Register::<u8>::from(0x01_u8);
    assert_eq!(r8.load(), 0x01_u8);

    // 16-bit register
    let r16 = Register::<u16>::from(0x0123_u16);
    assert_eq!(r16.load(), 0x0123_u16);

    // 32-bit register
    let r32 = Register::<u32>::from(0x0123_4567_u32);
    assert_eq!(r32.load(), 0x0123_4567_u32);

    // 64-bit register
    let r64 = Register::<u64>::from(0x0123_4567_89ab_cdef_u64);
    assert_eq!(r64.load(), 0x0123_4567_89ab_cdef_u64);

    // 128-bit register
    let r128 = Register::<u128>::from(0x0123_4567_89ab_cdef_0123_4567_89ab_cdef_u128);
    assert_eq!(r128.load(), 0x0123_4567_89ab_cdef_0123_4567_89ab_cdef_u128);
}

#[test]
fn cell_store_works() {
    // 8-bit register
    let mut r8 = Register::<u8>::new();
    r8.store(0x01_u8);
    assert_eq!(r8.load(), 0x01_u8);

    // 16-bit register
    let mut r16 = Register::<u16>::new();
    r16.store(0x0123_u16);
    assert_eq!(r16.load(), 0x0123_u16);

    // 32-bit register
    let mut r32 = Register::<u32>::new();
    r32.store(0x0123_4567_u32);
    assert_eq!(r32.load(), 0x0123_4567_u32);

    // 64-bit register
    let mut r64 = Register::<u64>::new();
    r64.store(0x0123_4567_89ab_cdef_u64);
    assert_eq!(r64.load(), 0x0123_4567_89ab_cdef_u64);

    // 128-bit register
    let mut r128 = Register::<u128>::new();
    r128.store(0x0123_4567_89ab_cdef_0123_4567_89ab_cdef_u128);
    assert_eq!(r128.load(), 0x0123_4567_89ab_cdef_0123_4567_89ab_cdef_u128);
}
