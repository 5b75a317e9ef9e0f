use remus::bus::Bus;
use remus::dev::Device;
use remus::mem::Ram;

fn setup() -> Bus {
    let mut bus = Bus::new();
    bus.map(0x000, 0x100, Ram::from(&[1u8; 0x100]).to_dynamic());
    bus.map(0x100, 0x100, Ram::from(&[2u8; 0x100]).to_dynamic());
    bus.map(0x200, 0x100, Ram::from(&[3u8; 0x100]).to_dynamic());
    bus
}

#[test]
fn bus_new_works() {
    let bus = Bus::new();
    assert!(bus.maps.iter().is_empty());
}

#[test]
fn bus_from_works() {
    let mut bus = Bus::new();
    bus.map(0x000, 0x100, Ram::<u8, 0x100>::new().to_dynamic());
    bus.map(0x100, 0x100, Ram::<u8, 0x100>::new().to_dynamic());
    bus.map(0x200, 0x100, Ram::<u8, 0x100>::new().to_dynamic());
    let _ = bus;
}

#[test]
fn bus_map_works() {
    let mut bus = Bus::new();
    bus.map(0x000, 0x100, Ram::<u8, 0x100>::new().to_dynamic());
    bus.map(0x100, 0x100, Ram::<u8, 0x100>::new().to_dynamic());
    bus.map(0x200, 0x100, Ram::<u8, 0x100>::new().to_dynamic());
}

#[test]
fn bus_device_len_works() {
    // Build a relatively complicated overlapping bus:
    // d0: [                a                              ]
    // d1: [                 bb                            ]
    // d2: [                   cccc                        ]
    // d3: [                       ddddddddd               ]
    // d4: [eeeeeeeeeeeeeeee                               ]
    // d5: [ffffffffffffffffffffffffffffffffffffffffffff...]
    let mut bus = Bus::new();
    // Add device 0
    const N0: usize = 0x0;
    const A0: usize = 0x1000;
    let d0 = Ram::<u8, N0>::from(&[0xaa; N0]);
    bus.map(A0, N0, d0.to_dynamic());
    assert_eq!(bus.len(), N0);
    // Add device 1
    const N1: usize = 0x1;
    const A1: usize = A0 + N0;
    let d1 = Ram::<u8, N1>::from(&[0xbb; N1]);
    bus.map(A0, N1, d1.to_dynamic());
    assert_eq!(bus.len(), N0 + N1);
    // Add device 2
    const N2: usize = 0x10;
    const A2: usize = A1 + N1;
    let d2 = Ram::<u8, N2>::from(&[0xcc; N2]);
    bus.map(A2, N2, d2.to_dynamic());
    assert_eq!(bus.len(), N0 + N1 + N2);
    // Add device 3
    const N3: usize = 0x100;
    const A3: usize = A2 + N2;
    let d3 = Ram::<u8, N3>::from(&[0xdd; N3]);
    bus.map(A3, N3, d3.to_dynamic());
    assert_eq!(bus.len(), N0 + N1 + N2 + N3);
    // Add device 4
    const N4: usize = 0x1000;
    const A4: usize = 0x0000;
    let d4 = Ram::<u8, N4>::from(&[0xee; N4]);
    bus.map(A4, N4, d4.to_dynamic());
    assert_eq!(bus.len(), N0 + N1 + N2 + N3 + N4);
    // Add device 5
    const N5: usize = 0x10000;
    const A5: usize = A4;
    let d5 = Ram::<u8, N5>::from(&[0xff; N5]);
    bus.map(A5, N5, d5.to_dynamic());
    assert_eq!(bus.len(), N5);
}

#[test]
fn device_read_mapped_works() {
    let bus = setup();
    (0x000..0x100).for_each(|i| assert_eq!(bus.read(i), 1));
    (0x100..0x200).for_each(|i| assert_eq!(bus.read(i), 2));
    (0x200..0x300).for_each(|i| assert_eq!(bus.read(i), 3));
}

#[test]
fn device_write_mapped_works() {
    let mut bus = setup();
    (0x000..0x300).for_each(|i| bus.write(i, 4));
    (0x000..0x300).for_each(|i| assert_eq!(bus.read(i), 4));
}

#[test]
fn device_read_write_overlapping_mapped_works() {
    // Build a relatively complicated overlapping bus:
    // d0: [                a                              ]
    // d1: [                 bb                            ]
    // d2: [                   cccc                        ]
    // d3: [                       ddddddddd               ]
    // d4: [eeeeeeeeeeeeeeee                               ]
    // d5: [ffffffffffffffffffffffffffffffffffffffffffff...]
    let mut bus = Bus::new();
    // Add device 0
    const N0: usize = 0x0;
    const A0: usize = 0x1000;
    let d0 = Ram::<u8, N0>::from(&[0xaa; N0]);
    bus.map(A0, N0, d0.to_dynamic());
    // Add device 1
    const N1: usize = 0x1;
    const A1: usize = A0 + N0;
    let d1 = Ram::<u8, N1>::from(&[0xbb; N1]);
    bus.map(A0, N1, d1.to_dynamic());
    // Add device 2
    const N2: usize = 0x10;
    const A2: usize = A1 + N1;
    let d2 = Ram::<u8, N2>::from(&[0xcc; N2]);
    bus.map(A2, N2, d2.to_dynamic());
    // Add device 3
    const N3: usize = 0x100;
    const A3: usize = A2 + N2;
    let d3 = Ram::<u8, N3>::from(&[0xdd; N3]);
    bus.map(A3, N3, d3.to_dynamic());
    // Add device 4
    const N4: usize = 0x1000;
    const A4: usize = 0x0000;
    let d4 = Ram::<u8, N4>::from(&[0xee; N4]);
    bus.map(A4, N4, d4.to_dynamic());
    // Add device 5
    const N5: usize = 0x10000;
    const A5: usize = A4;
    let d5 = Ram::<u8, N5>::from(&[0xff; N5]);
    bus.map(A5, N5, d5.to_dynamic());

    // Check if it is accessed properly...
    let _ = (0x0..A0).map(|addr| bus.read(addr)).all(|byte| byte == 0xaa);
    let _ = (0x0..A1).map(|addr| bus.read(addr)).all(|byte| byte == 0xbb);
    let _ = (0x0..A2).map(|addr| bus.read(addr)).all(|byte| byte == 0xcc);
    let _ = (0x0..A3).map(|addr| bus.read(addr)).all(|byte| byte == 0xdd);
    let _ = (A4..A4 + N4).map(|addr| bus.read(addr)).all(|byte| byte == 0xee);
    let _ = (A5..A5 + N5).map(|addr| bus.read(addr)).all(|byte| byte == 0xff);
}
