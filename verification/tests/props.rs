use remus::bus::adapt::{Bank, Mask, Remap, View};
use remus::bus::{Bus, Error, Mux};
use remus::dev::{random, Device, Null, Random};
use remus::mem::{ram, rom, Ram, Rom};
use remus::reg::Register;
use remus::wired::{Wire, Wired};
use remus::{Address, Block, Cell, Shared};

#[test]
fn precedence_nested_mapping_shadows_wider_one() {
    // A wide region with a narrower, higher-based device nested inside it.
    let mut bus = Bus::new();
    bus.map(0x000, 0x100, Ram::from(&[0x11u8; 0x100]).to_dynamic());
    bus.map(0x040, 0x010, Ram::from(&[0x22u8; 0x010]).to_dynamic());
    (0x040..0x050).for_each(|i| assert_eq!(bus.read(i), 0x22));
    (0x000..0x040).for_each(|i| assert_eq!(bus.read(i), 0x11));
    (0x050..0x100).for_each(|i| assert_eq!(bus.read(i), 0x11));
}

#[test]
fn tie_break_same_base_prefers_narrower_mapping() {
    let mut bus = Bus::new();
    bus.map(0x10, 0x20, Ram::from(&[0xaau8; 0x20]).to_dynamic());
    bus.map(0x10, 0x10, Ram::from(&[0xbbu8; 0x10]).to_dynamic());
    (0x10..0x20).for_each(|i| assert_eq!(bus.read(i), 0xbb));
    (0x20..0x30).for_each(|i| assert_eq!(bus.read(i), 0xaa));
}

#[test]
fn translation_rebases_each_device_to_zero() {
    let mut words = [0u8; 0x10];
    (0..0x10).for_each(|i| words[i] = i as u8);
    let mut bus = Bus::new();
    bus.map(0x1000, 0x10, Ram::from(&words).to_dynamic());
    (0..0x10).for_each(|i| assert_eq!(bus.read(0x1000 + i), words[i]));
    bus.write(0x1004, 0x99);
    assert_eq!(bus.read(0x1004), 0x99);
    assert_eq!(bus.read(0x1003), 0x03);
}

#[test]
fn unmap_returns_not_found_the_second_time() {
    let mut bus = Bus::new();
    let dev = Ram::from(&[0x55u8; 0x10]).to_dynamic();
    bus.map(0x00, 0x10, Ram::from(&[0x55u8; 0x10]).to_dynamic());
    assert_eq!(bus.try_read(0x04), Ok(0x55));
    let taken = bus.unmap(&dev);
    assert!(taken.is_some());
    assert_eq!(bus.unmap(&dev), None);
    assert_eq!(bus.try_read(0x04), Err(Error::Unmapped(0x04)));
}

#[test]
fn unmap_leaves_other_coverage_in_place() {
    let mut bus = Bus::new();
    let narrow = Ram::from(&[0x22u8; 0x10]).to_dynamic();
    bus.map(0x000, 0x100, Ram::from(&[0x11u8; 0x100]).to_dynamic());
    bus.map(0x040, 0x010, Ram::from(&[0x22u8; 0x010]).to_dynamic());
    assert_eq!(bus.read(0x44), 0x22);
    assert!(bus.unmap(&narrow).is_some());
    assert_eq!(bus.read(0x44), 0x11);
}

#[test]
fn bank_switching_changes_reads_without_mutating_candidates() {
    let mut bank = Bank::new();
    bank.add(Ram::from(&[0xaau8; 0x10]).to_dynamic());
    bank.add(Ram::from(&[0xbbu8; 0x10]).to_dynamic());
    assert_eq!(bank.get(), 0);
    assert_eq!(bank.read(0x3), 0xaa);
    bank.set(1);
    assert_eq!(bank.read(0x3), 0xbb);
    bank.set(0);
    assert_eq!(bank.read(0x3), 0xaa);
}

#[test]
fn bank_reset_restores_selector_and_resets_all_candidates() {
    let mut bank = Bank::new();
    bank.add(Ram::from(&[0xaau8; 0x10]).to_dynamic());
    bank.add(Ram::from(&[0xbbu8; 0x10]).to_dynamic());
    bank.set(1);
    bank.reset();
    assert_eq!(bank.get(), 0);
    assert_eq!(bank.read(0x3), 0x00);
    bank.set(1);
    assert_eq!(bank.read(0x3), 0x00);
}

#[test]
fn bank_insert_remove_len_work() {
    let mut bank = Bank::new();
    bank.add(Ram::from(&[0x01u8; 0x10]).to_dynamic());
    bank.insert(0, Ram::from(&[0x02u8; 0x10]).to_dynamic());
    assert_eq!(bank.len(), 2);
    assert_eq!(bank.read(0x0), 0x02);
    let first = bank.remove(0);
    assert!(first == Ram::from(&[0x02u8; 0x10]).to_dynamic());
    assert_eq!(bank.read(0x0), 0x01);
    bank.clear();
    assert_eq!(bank.len(), 0);
}

#[test]
fn mask_fallback_skip_and_remove() {
    let mut mask = Mask::new();
    let mut l0 = Bus::new();
    l0.map(0x00, 0x10, Ram::from(&[0xaau8; 0x10]).to_dynamic());
    let mut l1 = Bus::new();
    l1.map(0x00, 0x10, Ram::from(&[0xbbu8; 0x10]).to_dynamic());
    mask.push(l0.to_dynamic());
    mask.push(l1.to_dynamic());
    assert_eq!(mask.read(0x4), 0xaa);
    mask.layer_mut(0).skip = true;
    assert_eq!(mask.read(0x4), 0xbb);
    mask.layer_mut(0).skip = false;
    assert_eq!(mask.read(0x4), 0xaa);
    mask.remove(0);
    mask.remove(0);
    assert_eq!(mask.try_read(0x4), Err(Error::Unmapped(0x4)));
}

#[test]
fn mask_layer_access_and_pop() {
    let mut mask = Mask::new();
    let mut l0 = Bus::new();
    l0.map(0x00, 0x10, Ram::from(&[0x77u8; 0x10]).to_dynamic());
    mask.push(l0.to_dynamic());
    assert!(mask.layer(0).is_some());
    assert!(!mask.layer(0).unwrap().skip);
    assert!(mask.layer(1).is_none());
    assert!(mask.pop().is_some());
    assert!(mask.pop().is_none());
}

#[test]
fn mask_write_falls_through_read_only_layers() {
    // The first layer answers reads but rejects writes; a write must land
    // in the second layer, leaving the first untouched.
    let mut mask = Mask::new();
    let mut l0 = Bus::new();
    l0.map(0x00, 0x10, Rom::from(&[0xaau8; 0x10]).to_dynamic());
    let mut l1 = Bus::new();
    l1.map(0x00, 0x10, Ram::from(&[0xbbu8; 0x10]).to_dynamic());
    mask.push(l0.to_dynamic());
    mask.push(l1.to_dynamic());
    assert_eq!(mask.try_write(0x4, 0x99), Ok(()));
    assert_eq!(mask.read(0x4), 0xaa);
    mask.layer_mut(0).skip = true;
    assert_eq!(mask.read(0x4), 0x99);
}

#[test]
fn view_window_rebases_and_bounds() {
    let mut words = [0u8; 0x100];
    (0..0x100).for_each(|i| words[i] = i as u8);
    let view = View::new(0x40, 0xbf, Ram::from(&words).to_dynamic());
    (0x00..0x80).for_each(|i| assert_eq!(view.read(i), (0x40 + i) as u8));
    assert_eq!(view.try_read(0x80), None);
    assert_eq!(view.try_read(0xff), None);
}

#[test]
fn remap_negative_offset_shifts_downward() {
    let mut words = [0u8; 0x10];
    (0..0x10).for_each(|i| words[i] = i as u8);
    // An access at i reaches the device at i - (-0x4) = i + 0x4.
    let remap = Remap::new(-0x4, Ram::from(&words).to_dynamic());
    assert_eq!(remap.read(0x0), 0x4);
    assert_eq!(remap.read(0xb), 0xf);
}

#[test]
fn reset_propagates_through_bus_keeping_the_map() {
    let mut bus = Bus::new();
    bus.map(0x00, 0x10, Ram::from(&[0x11u8; 0x10]).to_dynamic());
    bus.map(0x10, 0x10, Rom::from(&[0x22u8; 0x10]).to_dynamic());
    bus.reset();
    // Volatile storage zeroes, read-only storage persists, and the shape of
    // the mapping table is unchanged.
    assert_eq!(bus.maps.iter().len(), 2);
    (0x00..0x10).for_each(|i| assert_eq!(bus.read(i), 0x00));
    (0x10..0x20).for_each(|i| assert_eq!(bus.read(i), 0x22));
    assert_eq!(bus.len(), 0x20);
}

#[test]
fn nested_buses_resolve_through_the_tree() {
    let mut inner = Bus::new();
    inner.map(0x00, 0x10, Ram::from(&[0x5au8; 0x10]).to_dynamic());
    let mut outer = Bus::new();
    outer.map(0x100, 0x10, inner.to_dynamic());
    assert_eq!(outer.read(0x105), 0x5a);
}

#[test]
fn mux_interface_mirrors_the_bus() {
    let mut bus = Bus::new();
    Mux::map(&mut bus, 0x00, 0x10, Ram::from(&[0x42u8; 0x10]).to_dynamic());
    assert!(Mux::get(&bus, 0x05).is_some());
    assert!(Mux::get(&bus, 0x15).is_none());
    let dev = Ram::from(&[0x42u8; 0x10]).to_dynamic();
    assert!(Mux::unmap(&mut bus, &dev).is_some());
    assert!(Mux::get(&bus, 0x05).is_none());
}

#[test]
fn bus_len_spans_lowest_base_to_highest_end() {
    let mut bus = Bus::new();
    assert_eq!(bus.len(), 0);
    bus.map(0x40, 0x10, Ram::from(&[0u8; 0x10]).to_dynamic());
    assert_eq!(bus.len(), 0x10);
    bus.map(0x20, 0x08, Ram::from(&[0u8; 0x08]).to_dynamic());
    assert_eq!(bus.len(), 0x30);
}

#[test]
fn ram_error_reports_the_offending_index() {
    let mut ram = Ram::<u8, 0x10>::new();
    assert_eq!(ram.try_read(0x10), Err(ram::Error::Bounds(0x10)));
    assert_eq!(ram.try_write(0x11, 0), Err(ram::Error::Bounds(0x11)));
    assert_eq!(ram.try_read(0x0f), Ok(0));
    assert_eq!(ram.try_write(0x0f, 9), Ok(()));
    assert_eq!(ram.try_read(0x0f), Ok(9));
}

#[test]
fn rom_rejects_every_write() {
    let mut rom = Rom::<u8, 0x10>::from(&[7u8; 0x10]);
    assert_eq!(rom.try_write(0x00, 1), Err(rom::Error::Write));
    assert_eq!(rom.try_write(0x10, 1), Err(rom::Error::Bounds(0x10)));
    assert_eq!(rom.try_read(0x10), Err(rom::Error::Bounds(0x10)));
    assert_eq!(rom.try_read(0x00), Ok(7));
}

#[test]
fn null_honours_its_length_in_fallible_accesses() {
    let mut null = Null::<u8, 0x10>::with(0x2a);
    assert_eq!(null.try_read(0x0f), Some(0x2a));
    assert_eq!(null.try_read(0x10), None);
    assert_eq!(null.try_write(0x0f, 1), Some(()));
    assert_eq!(null.try_write(0x10, 1), None);
    // An unbounded null answers everywhere.
    let unbounded = Null::<u8, 0>::with(0x2a);
    assert_eq!(unbounded.try_read(0xffff), Some(0x2a));
    null.read_as(0x07);
    assert_eq!(null.read(0x123), 0x07);
}

#[test]
fn random_honours_its_length_in_fallible_accesses() {
    let mut rng = Random::<0x10>::new();
    assert!(rng.try_read(0x0f).is_ok());
    assert_eq!(rng.try_read(0x10), Err(random::Error::Bounds(0x10)));
    assert_eq!(rng.try_write(0x10, 1), Err(random::Error::Bounds(0x10)));
    assert_eq!(rng.try_write(0x0f, 1), Ok(()));
    let _ = rng.read(0x123);
}

#[test]
fn register_reads_its_word_at_every_index() {
    let mut reg = Register::<u8>::from(0x5a);
    assert_eq!(reg.read(0x00), 0x5a);
    assert_eq!(reg.read(0xff), 0x5a);
    reg.write(0x10, 0x77);
    assert_eq!(reg.load(), 0x77);
    reg.reset();
    assert_eq!(reg.load(), 0x00);
}

#[test]
fn register_is_mappable_as_a_device() {
    let mut bus = Bus::new();
    bus.map(0xff00, 0x01, Register::<u8>::from(0x99).to_dynamic());
    assert_eq!(bus.read(0xff00), 0x99);
    bus.write(0xff00, 0x33);
    assert_eq!(bus.read(0xff00), 0x33);
}

#[test]
fn dynamic_equality_is_word_for_word() {
    let a = Ram::from(&[1u8, 2, 3]).to_dynamic();
    let b = Ram::from(&[1u8, 2, 3]).to_dynamic();
    let c = Ram::from(&[1u8, 2, 4]).to_dynamic();
    let r = Rom::from(&[1u8, 2, 3]).to_dynamic();
    assert!(a == b);
    assert!(a != c);
    assert!(a != r);
}

#[test]
fn wire_latches_and_releases() {
    let mut wire: Wire<u8> = Wire::Impedant;
    assert_eq!(wire.get(), None);
    wire.acquire(0x42);
    assert_eq!(wire.get(), Some(0x42));
    wire.release();
    assert_eq!(wire.get(), None);
}

#[test]
fn wired_device_latches_a_request_until_cycled() {
    let mut wired = Wired::new(Ram::<u8, 0x10>::from(&[9u8; 0x10]));
    assert_eq!(wired.read(0x3), 9);
    wired.inner.write(0x3, 4);
    // The word stays latched until the wires are released.
    assert_eq!(wired.read(0x3), 9);
    wired.index.release();
    wired.value.release();
    assert_eq!(wired.read(0x3), 4);
}

#[test]
fn shared_handle_delegates_access() {
    let mut shared = Shared::new(Register::<u16>::from(0xbeef));
    assert_eq!(shared.load(), 0xbeef);
    shared.store(0x1234);
    assert_eq!(shared.borrow().0, 0x1234);
    assert_eq!(shared.inner().0, 0x1234);
    shared.inner_mut().0 = 1;
    assert_eq!(shared.load(), 1);
    shared.borrow_mut().0 = 2;
    assert_eq!(shared.load(), 2);
}

#[test]
fn zero_sized_mappings_cover_nothing() {
    let mut bus = Bus::new();
    bus.map(0x10, 0, Ram::from(&[0xffu8; 0x10]).to_dynamic());
    assert_eq!(bus.try_read(0x10), Err(Error::Unmapped(0x10)));
    assert_eq!(bus.len(), 0);
}
