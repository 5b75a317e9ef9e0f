use remus::bus::adapt::{Remap, View};
use remus::dev::Device;
use remus::mem::Ram;

#[test]
fn remap_device_contains_works() {
    let ram = Ram::<u8, 0x100>::new();
    let remap = Remap::new(0x080, ram.to_dynamic());
    (0x00..=0x7fusize).for_each(|addr| assert!(remap.contains(addr)));
    (0x80..=0xffusize).for_each(|addr| assert!(remap.contains(addr)));
}

#[test]
fn remap_device_read_works() {
    let ram = Ram::from(&[0xaa; 0x100]);
    let remap = Remap::new(0x080, ram.to_dynamic());
    (0x080..0x180).for_each(|addr| {
        assert_eq!(remap.read(addr), 0xaa);
    });
}

#[test]
fn remap_device_write_works() {
    let ram = Ram::<u8, 0x100>::new();
    let mut remap = Remap::new(0x080, ram.to_dynamic());
    (0x080..0x100).for_each(|addr| {
        remap.write(addr, 0xaa);
    });
    (0x000..0x080).for_each(|addr| {
        assert_eq!(remap.dev.read(addr), 0xaa);
    });
    (0x080..0x100).for_each(|addr| {
        assert_eq!(remap.dev.read(addr), 0x00);
    });
}

#[test]
fn view_device_contains_works() {
    let ram = Ram::<u8, 0x100>::new();
    let view = View::new(0x40, 0xbf, ram.to_dynamic());
    (0x00..=0x3fusize).for_each(|addr| assert!(!view.contains(addr)));
    (0x40..=0xbfusize).for_each(|addr| assert!(view.contains(addr)));
    (0xc0..=0xffusize).for_each(|addr| assert!(!view.contains(addr)));

    let ram = Ram::<u8, 0x100>::new();
    let view = View::new(0x40, 0xbf, ram.to_dynamic());
    (0x00..=0x3fusize).for_each(|addr| assert!(!view.contains(addr)));
    (0x40..=0xbfusize).for_each(|addr| assert!(view.contains(addr)));
    (0xc0..=0xffusize).for_each(|addr| assert!(!view.contains(addr)));
}

#[test]
fn view_device_read_works() {
    let ram = Ram::from(&[0xaa; 0x100]);
    let view = View::new(0x40, 0xbf, ram.to_dynamic());
    (0..0x80).for_each(|addr| {
        assert_eq!(view.read(addr), 0xaa);
    });
}

#[test]
fn view_device_write_works() {
    let ram = Ram::<u8, 0x100>::new();
    let mut view = View::new(0x40, 0xbf, ram.to_dynamic());
    (0x000..0x080).for_each(|addr| {
        view.write(addr, 0xaa);
    });
    (0x000..0x040).for_each(|addr| {
        assert_eq!(view.dev.read(addr), 0x00);
    });
    (0x040..0x0c0).for_each(|addr| {
        assert_eq!(view.dev.read(addr), 0xaa);
    });
    (0x0c0..0x100).for_each(|addr| {
        assert_eq!(view.dev.read(addr), 0x00);
    });
}
