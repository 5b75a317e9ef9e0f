use remus::dev::{Null, Random};
use remus::mem::Ram;
use remus::Address;

#[test]
fn mod_address_read_works() {
    (0..0x100).for_each(|index: usize| assert_eq!(Ram::<u8, 0x100>::from(&[0xaa; 0x100]).read(index), 0xaa));
}

#[test]
fn mod_address_write_works() {
    let mut dev = Ram::<u8, 0x100>::from(&[0u8; 0x100]);
    (0..0x100).for_each(|index: usize| dev.write(index, 0xaa));
    (0..0x100).for_each(|index: usize| assert_eq!(Ram::<u8, 0x100>::from(&[0xaa; 0x100]).read(index), 0xaa));
}

#[test]
fn null_new_works() {
    let null = Null::<u8, 0x100>::new();
    assert!((0x000..0x100).map(|index| null.read(index)).all(|byte| byte == 0));
}

#[test]
fn with_works() {
    let null: Null<u8, 0x100> = Null::with(0xaa);
    assert!((0x000..0x100).map(|index| null.read(index)).all(|byte| byte == 0xaa));
}

#[test]
fn null_address_read_works() {
    let null: Null<u8, 0x100> = Null::with(0xaa);
    assert!((0x000..0x100).map(|index| null.read(index)).all(|byte| byte == null.0));
}

#[test]
fn null_address_write_works() {
    let mut null: Null<u8, 0x100> = Null::new();
    (0x000..0x100).for_each(|index| null.write(index, 0xaa));
    assert!((0x000..0x100).map(|index| null.read(index)).all(|byte| byte == 0));
}

#[test]
fn random_new_works() {
    let _ = Random::<0x100>::new();
}

#[test]
fn random_address_read_works() {
    let random = Random::<0x100>::new();
    (0x000..0x100).for_each(|index| {
        let _ = random.read(index);
    });
}

#[test]
fn random_address_write_works() {
    let mut random = Random::<0x100>::new();
    (0x000..0x100).for_each(|index| random.write(index, 0xaa));
    (0x000..0x100).for_each(|index| while random.read(index) == 0xaa {});
}
