use remus::bus::adapt::{Bank, Mask, Remap, View};
use remus::bus::{Bus, Error};
use remus::dev::Device;
use remus::mem::Ram;

#[test]
fn bank_new_works() {
    let _ = Bank::new();
}

#[test]
fn mask_new_works() {
    let _ = Mask::new();
}

fn setup_full() -> Mask {
    // Create a new mask
    let mut mask = Mask::new();
    // Populate mask with layers
    for (start, value) in [
        // [aaaaaaaa        ]
        (0x00, 0xaa),
        // [  bbbbbbbb      ]
        (0x20, 0xbb),
        // [    cccccccc    ]
        (0x40, 0xcc),
        // [      dddddddd  ]
        (0x60, 0xdd),
        // [        eeeeeeee]
        (0x80, 0xee),
    ] {
        // Define bus
        let mut bus = Bus::new();
        // Declare device
        let dev = Ram::from(&[value; 0x80]).to_dynamic();
        bus.map(start, 0x80, dev);
        // Add layer
        mask.push(bus.to_dynamic());
    }
    // Reverse the mask
    mask.reverse();
    // [aabbccddeeeeeeee]
    mask
}

#[test]
fn test_full_works() {
    let mask = setup_full();
    (0x00..=0x1f).for_each(|index| {
        assert_eq!(mask.read(index), 0xaa);
    });
    (0x20..=0x3f).for_each(|index| {
        assert_eq!(mask.read(index), 0xbb);
    });
    (0x40..=0x5f).for_each(|index| {
        assert_eq!(mask.read(index), 0xcc);
    });
    (0x60..=0x7f).for_each(|index| {
        assert_eq!(mask.read(index), 0xdd);
    });
    (0x80..=0xff).for_each(|index| {
        assert_eq!(mask.read(index), 0xee);
    });
}

fn setup_holy() -> Mask {
    // Create a new mask
    let mut mask = Mask::new();
    // Populate mask with layers
    for (start, value) in [
        // [aaaa            ]
        (0x00, 0xaa),
        // [      bbbb      ]
        (0x60, 0xbb),
        // [            cccc]
        (0xc0, 0xcc),
    ] {
        // Define bus
        let mut bus = Bus::new();
        // Declare device
        let dev = Ram::from(&[value; 0x80]).to_dynamic();
        bus.map(start, 0x40, dev);
        // Add layer
        mask.push(bus.to_dynamic());
    }
    // Reverse the mask
    mask.reverse();
    // [aaaa  bbbb  cccc]
    mask
}

#[test]
fn test_holy_works() {
    let mask = setup_holy();
    (0x00..=0x3f).for_each(|index| {
        assert_eq!(mask.read(index), 0xaa);
    });
    (0x40..=0x5f).for_each(|index| {
        assert_eq!(mask.try_read(index), Err(Error::Unmapped(index)));
    });
    (0x60..=0x9f).for_each(|index| {
        assert_eq!(mask.read(index), 0xbb);
    });
    (0xa0..=0xbf).for_each(|index| {
        assert_eq!(mask.try_read(index), Err(Error::Unmapped(index)));
    });
    (0xc0..=0xff).for_each(|index| {
        assert_eq!(mask.read(index), 0xcc);
    });
}

fn setup_real() -> Mask {
    // Create a new mask
    let mut mask = Mask::new();
    // Populate mask with layers
    let mut a = Bus::new();
    let mut b = Bus::new();
    let mut c = Bus::new();
    a.map(0x0000, 0x0100, Ram::from(&[0xa1; 0x0100]).to_dynamic());
    b.map(0x0000, 0x8000, Ram::from(&[0xb1; 0x8000]).to_dynamic());
    c.map(0x8000, 0x2000, Ram::from(&[0xc1; 0x2000]).to_dynamic());
    b.map(0xa000, 0x2000, Ram::from(&[0xb2; 0x2000]).to_dynamic());
    b.map(0xc000, 0x2000, Ram::from(&[0xb3; 0x2000]).to_dynamic());
    b.map(0xe000, 0x2000, Ram::from(&[0xb4; 0x2000]).to_dynamic());
    a.map(0xfe00, 0x0200, Ram::from(&[0xa2; 0x0200]).to_dynamic());
    a.map(0xff80, 0x0080, Ram::from(&[0xa3; 0x0080]).to_dynamic());
    mask.push(a.to_dynamic());
    mask.push(b.to_dynamic());
    mask.push(c.to_dynamic());
    // [abbbbbbbccbbbbcc]
    mask
}

#[test]
fn test_real_works() {
    let mask = setup_real();
    (0x0000..=0x00ff).for_each(|index| {
        assert_eq!(mask.read(index), 0xa1);
    });
    (0x0100..=0x7fff).for_each(|index| {
        assert_eq!(mask.read(index), 0xb1);
    });
    (0x8000..=0x9fff).for_each(|index| {
        assert_eq!(mask.read(index), 0xc1);
    });
    (0xa000..=0xbfff).for_each(|index| {
        assert_eq!(mask.read(index), 0xb2);
    });
    (0xc000..=0xdfff).for_each(|index| {
        assert_eq!(mask.read(index), 0xb3);
    });
    (0xe000..=0xfdff).for_each(|index| {
        assert_eq!(mask.read(index), 0xb4);
    });
    (0xfe00..=0xff7f).for_each(|index| {
        assert_eq!(mask.read(index), 0xa2);
    });
    (0xff80..=0xffff).for_each(|index| {
        assert_eq!(mask.read(index), 0xa3);
    });
}

#[test]
fn remap_new_works() {
    let ram = Ram::<u8, 0x100>::new();
    let _ = Remap::new(0x0800, ram.to_dynamic());
}

#[test]
fn remap_address_read_works() {
    let ram = Ram::from(&[0xaa; 0x100]);
    let remap = Remap::new(0x080, ram.to_dynamic());
    (0x080..0x180).for_each(|index| {
        assert_eq!(remap.read(index), 0xaa);
    });
}

#[test]
fn remap_address_write_works() {
    let ram = Ram::<u8, 0x100>::new();
    let mut remap = Remap::new(0x080, ram.to_dynamic());
    (0x080..0x100).for_each(|index: usize| {
        remap.write(index, 0xaa);
    });
    (0x000..0x080).for_each(|index: usize| {
        assert_eq!(remap.dev.read(index), 0xaa);
    });
    (0x080..0x100).for_each(|index: usize| {
        assert_eq!(remap.dev.read(index), 0x00);
    });
}

#[test]
fn view_new_works() {
    let ram = Ram::<u8, 0x100>::new();
    let _ = View::new(0x40, 0xbf, ram.to_dynamic());
}

#[test]
fn view_address_read_works() {
    let ram = Ram::from(&[0xaa; 0x100]);
    let view = View::new(0x40, 0xbf, ram.to_dynamic());
    (0x00..=0x7f).for_each(|index| {
        assert_eq!(view.read(index), 0xaa);
    });
    (0x80..=0xffusize).for_each(|index| {
        assert_eq!(view.try_read(index), None);
    });
}

#[test]
fn view_address_write_works() {
    let ram = Ram::<u8, 0x100>::new();
    let mut view = View::new(0x40, 0xbf, ram.to_dynamic());
    (0x00..=0x7f).for_each(|index| {
        view.write(index, 0xaa);
    });
    (0x80..=0xffusize).for_each(|index| {
        assert_eq!(view.try_write(index, 0xaa), None);
    });
    (0x00..=0x3f).for_each(|index| {
        assert_eq!(view.dev.read(index), 0x00);
    });
    (0x40..=0xbf).for_each(|index| {
        assert_eq!(view.dev.read(index), 0xaa);
    });
    (0xc0..=0xffusize).for_each(|index| {
        assert_eq!(view.dev.read(index), 0x00);
    });
}
