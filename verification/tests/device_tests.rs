use kernel::collections::queue::Queue;
use kernel::device::block::{Block, BlockIO, RamDisk, MBR};
use kernel::device::keyboard::{
    pop_ascii, ps2_key_mapping, usb_key_mapping, Key, KeySpecial, Keyboard, KeyboardManager, Keycode, PS2KeyboardDriver,
    ScanCode, USBKeycode,
};
use kernel::device::mouse::{get_mouse_state_unblocked, mouse_merge_fits, Mouse, MouseState, PS2MouseDriver};
use kernel::device::pata::{HDDInformation, Pata, PataAction, PataBus, PataEvent, PataStatus, HDD, PATA_WORDS};
use kernel::device::ps2::{led_byte, Ps2Action, Ps2Command, Ps2Event, Ps2Machine};
use kernel::device::Port;

#[test]
fn block_words() {
    let mut b = Block::empty();
    b.set_u8(3, 0xAB);
    assert_eq!(b.get_u8(3), 0xAB);
    b.set_u16(2, 0x1234);
    assert_eq!((b.bytes[4], b.bytes[5]), (0x34, 0x12));
    assert_eq!(b.get_u16(2), 0x1234);
    b.set_u32(10, 0xDEAD_BEEF);
    assert_eq!(b.get_u32(10), 0xDEAD_BEEF);
    assert_eq!(b.bytes[40], 0xEF);
    b.write_u32_at(101, 0x0102_0304);
    assert_eq!(b.read_u32_at(101), 0x0102_0304);
    assert_eq!(b.bytes[101], 0x04);
    b.write_u16_at(201, 0xBEEF);
    assert_eq!(b.read_u16_at(201), 0xBEEF);
}

#[test]
fn mbr_partitions() {
    let mut b = Block::empty();
    let mut mbr = b.mbr();
    let mut p = mbr.partition(1);
    assert_eq!(p.start_address(), 0);
    p.set_bootable();
    p.set_start_address(2048);
    p.set_size(0x10_0000);
    p.set_type_(0x0C);
    mbr.set_partition(1, p);
    b.set_mbr(&mbr);
    assert_eq!(b.bytes[446 + 16], 0x80);
    assert_eq!(b.bytes[446 + 16 + 4], 0x0C);
    assert_eq!(b.read_u32_at(446 + 16 + 8), 2048);
    let back = MBR { bytes: b.bytes }.partition(1);
    assert_eq!((back.status, back.start_address(), back.size(), back.type_()), (0x80, 2048, 0x10_0000, 0x0C));
    assert_eq!(MBR { bytes: b.bytes }.partition(0).size(), 0);
}

#[test]
fn ram_disk_read_after_write() {
    let mut disk = RamDisk::new(4 * 512 - 100);
    assert_eq!(disk.max_addr(), 4);
    let mut blk = Block::empty();
    blk.set_u8(0, 7);
    assert_eq!(disk.write(2, &vec![blk, blk]), Ok(2));
    let mut buf = vec![Block::empty(); 3];
    assert_eq!(disk.read(1, &mut buf), Ok(3));
    assert_eq!(buf[0].get_u8(0), 0);
    assert_eq!(buf[1].get_u8(0), 7);
    assert_eq!(buf[2].get_u8(0), 7);
    // runs past the end are refused and change nothing
    assert_eq!(disk.write(3, &vec![blk, blk]), Err(0));
    let mut two = vec![Block::empty(); 2];
    assert_eq!(disk.read(3, &mut two), Err(0));
    assert_eq!(two[0].get_u8(0), 0);
}

#[test]
fn pata_status_bits() {
    let s = PataStatus(0b1100_1001);
    assert!(s.busy() && s.ready() && s.request() && s.error());
    assert!(!s.fault() && !s.seek_complete() && !s.correctable_data_error() && !s.index());
}

#[test]
fn pata_bus_ports() {
    let bus = PataBus::new(0x1F0);
    assert_eq!(bus.data.port, 0x1F0);
    assert_eq!(bus.status.port, 0x1F7);
    assert_eq!(bus.command.port, 0x1F7);
    assert_eq!(bus.digital_int.port, 0x3F6);
    assert_eq!(Port::new(0x60).port, 0x60);
}

fn identify_words() -> Vec<u16> {
    let mut w = vec![0u16; PATA_WORDS];
    w[10] = 0x4142;
    w[27] = 0x5859;
    w[60] = 1000;
    w[61] = 0;
    w
}

#[test]
fn identification_block() {
    let info = HDDInformation::from_words(&identify_words());
    assert_eq!(info.total_sectors(), 1000);
    assert_eq!(info.serial_number()[0], 0x4241);
    assert_eq!(&info.serial_number_bytes()[..2], b"AB");
    assert_eq!(info.serial_number_bytes().len(), 20);
    assert_eq!(&info.model_number_bytes()[..2], b"XY");
    assert_eq!(info.model_number().len(), 20);
    assert_eq!(HDDInformation::empty().total_sectors(), 0);
}

fn drive(can_write: bool) -> HDD {
    HDD { primary: true, master: true, can_write, info: HDDInformation::from_words(&identify_words()) }
}

#[test]
fn probe_a_drive() {
    let mut pata = Pata::new();
    pata.set_interrupt_flag(true, true);
    assert!(pata.interrupt_arrived(true));
    assert!(pata.primary_interrupt && !pata.secondary_interrupt);
    let (mut probe, a) = pata.device(1);
    assert!(probe.primary && !probe.master);
    assert!(a == PataAction::WaitNotBusy);
    assert!(probe.step(PataEvent::Waited(true)) == PataAction::SelectDrive(0xF0));
    assert!(probe.step(PataEvent::Completed) == PataAction::WaitReady);
    assert!(probe.step(PataEvent::Waited(true)) == PataAction::Command { clear_interrupt: true, command: 0xEC });
    assert!(probe.step(PataEvent::Completed) == PataAction::WaitInterrupt);
    assert!(probe.step(PataEvent::Waited(true)) == PataAction::ReadStatus { settle: false });
    // an event that answers nothing asks again
    assert!(probe.step(PataEvent::Completed) == PataAction::ReadStatus { settle: false });
    assert!(probe.step(PataEvent::Status(0x58)) == PataAction::ReadInfo);
    assert!(probe.hdd().is_none());
    assert!(probe.step(PataEvent::Words(identify_words())) == PataAction::Finish { ok: true, blocks: 0 });
    let hdd = probe.hdd().unwrap();
    assert!(hdd.can_write && !hdd.master);
    assert_eq!(hdd.max_addr(), 1000);
    assert_eq!(hdd.info().words[10], 0x4241);
}

#[test]
fn probe_fails_on_time_out_and_error() {
    let mut pata = Pata::new();
    let (mut probe, _) = pata.device(0);
    assert!(probe.step(PataEvent::Waited(false)) == PataAction::Finish { ok: false, blocks: 0 });
    assert!(probe.hdd().is_none());
    let (mut probe, _) = pata.device(2);
    assert!(!probe.primary && probe.master);
    probe.step(PataEvent::Waited(true));
    probe.step(PataEvent::Completed);
    probe.step(PataEvent::Waited(true));
    probe.step(PataEvent::Completed);
    probe.step(PataEvent::Waited(true));
    assert!(probe.step(PataEvent::Status(0x01)) == PataAction::Finish { ok: false, blocks: 0 });
}

#[test]
fn read_two_blocks() {
    let (mut t, a) = drive(true).read_block(10, 2);
    assert!(a == PataAction::WaitNotBusy);
    assert!(t.step(PataEvent::Waited(true)) == PataAction::SetRegisters {
        sector_count: 2,
        sector_num: 10,
        cylinder_lsb: 0,
        cylinder_msb: 0,
        drive_head: 0xE0,
    });
    assert!(t.step(PataEvent::Completed) == PataAction::WaitReady);
    assert!(t.step(PataEvent::Waited(true)) == PataAction::Command { clear_interrupt: true, command: 0x20 });
    assert!(t.step(PataEvent::Completed) == PataAction::ReadStatus { settle: true });
    assert!(t.step(PataEvent::Status(0x08)) == PataAction::ReadData { block: 0 });
    assert!(t.step(PataEvent::Completed) == PataAction::ReadStatus { settle: true });
    assert!(t.step(PataEvent::Status(0x00)) == PataAction::WaitInterrupt);
    assert!(t.step(PataEvent::Waited(true)) == PataAction::ReadData { block: 1 });
    assert!(t.step(PataEvent::Completed) == PataAction::Finish { ok: true, blocks: 2 });
}

#[test]
fn read_out_of_range_or_failing() {
    let (_, a) = drive(true).read_block(999, 1);
    assert!(a == PataAction::Finish { ok: false, blocks: 0 });
    let (mut t, _) = drive(true).read_block(13, 3);
    t.step(PataEvent::Waited(true));
    t.step(PataEvent::Completed);
    t.step(PataEvent::Waited(true));
    t.step(PataEvent::Completed);
    t.step(PataEvent::Status(0x08));
    t.step(PataEvent::Completed);
    assert!(t.step(PataEvent::Status(0x01)) == PataAction::Finish { ok: false, blocks: 1 });
}

#[test]
fn write_one_block() {
    let (_, a) = drive(false).write_block(5, 1);
    assert!(a == PataAction::Finish { ok: false, blocks: 0 });
    let (mut t, a) = drive(true).write_block(5, 1);
    assert!(a == PataAction::WaitNotBusy);
    t.step(PataEvent::Waited(true));
    assert!(t.step(PataEvent::Completed) == PataAction::WaitReady);
    assert!(t.step(PataEvent::Waited(true)) == PataAction::Command { clear_interrupt: false, command: 0x30 });
    assert!(t.step(PataEvent::Completed) == PataAction::ReadStatus { settle: false });
    assert!(t.step(PataEvent::Status(0)) == PataAction::Sleep);
    assert!(t.step(PataEvent::Completed) == PataAction::ReadStatus { settle: false });
    assert!(t.step(PataEvent::Status(0x08)) == PataAction::WriteData { block: 0 });
    assert!(t.step(PataEvent::Completed) == PataAction::ReadStatus { settle: false });
    assert!(t.step(PataEvent::Status(0x08)) == PataAction::Delay);
    assert!(t.step(PataEvent::Completed) == PataAction::Finish { ok: true, blocks: 1 });
}

#[test]
fn key_tables() {
    let e = ps2_key_mapping(30);
    assert_eq!((e.normal(), e.combined()), (Key::Ascii(b'a'), Key::Ascii(b'A')));
    assert_eq!(ps2_key_mapping(42).normal(), Key::Special(KeySpecial::Lshift));
    let u = usb_key_mapping(4).unwrap();
    assert_eq!((u.normal(), u.combined()), (Key::Ascii(b'a'), Key::Ascii(b'A')));
    assert!(usb_key_mapping(103).is_none());
    assert!(Key::Ascii(b'q').is_alpha() && !Key::Ascii(b'1').is_alpha());
    assert!(Key::Ascii(b'7').is_num() && !Key::Special(KeySpecial::Tab).is_num());
    assert_eq!(KeySpecial::Enter.code(), 0x0A);
    assert!(ScanCode(30).is_alpha() && !ScanCode(2).is_alpha());
    assert!(ScanCode(2).is_common_num());
    assert!(ScanCode(71).is_num_pad() && !ScanCode(70).is_num_pad());
    assert!(USBKeycode(4).is_alpha() && USBKeycode(0x1E).is_common_num() && USBKeycode(0x59).is_num_pad());
    assert_eq!(ScanCode(0x9E).down_scan_code(), 30);
    assert!(ScanCode(0x9E).is_down() && !ScanCode(30).is_down());
}

#[test]
fn lock_keys_toggle() {
    let mut m = KeyboardManager::new();
    assert!(!m.is_combined_code(ScanCode(30), false));
    assert!(m.is_combined_code(ScanCode(30), true));
    m.update_key_status(&Key::Special(KeySpecial::CapsLock));
    assert!(m.capslock);
    assert!(m.is_combined_code(ScanCode(30), false));
    assert!(!m.is_combined_code(ScanCode(30), true));
    assert!(!m.is_combined_code(ScanCode(71), true));
    m.update_key_status(&Key::Special(KeySpecial::NumLock));
    assert!(m.is_combined_code(ScanCode(71), false));
    m.update_key_status(&Key::Ascii(b'x'));
    assert!(m.capslock && m.numlock && !m.scrolllock);
}

#[test]
fn ps2_keyboard_decodes_scan_codes() {
    let mut k = PS2KeyboardDriver::new();
    assert_eq!(k.on_data_received(30), Some((Key::Ascii(b'a'), false)));
    // shift is held while its code is one with bit 7 set
    assert_eq!(k.on_data_received(42 | 0x80), Some((Key::Special(KeySpecial::Lshift), true)));
    assert!(k.shift_pressed);
    assert_eq!(k.on_data_received(30), Some((Key::Ascii(b'A'), false)));
    assert_eq!(k.on_data_received(2), Some((Key::Ascii(b'!'), false)));
    assert_eq!(k.on_data_received(42), Some((Key::Special(KeySpecial::Lshift), false)));
    assert!(!k.shift_pressed);
    assert_eq!(k.on_data_received(58 | 0x80), Some((Key::Special(KeySpecial::CapsLock), true)));
    assert!(k.manager.capslock);
    assert_eq!(k.scan_code_to_ascii(ScanCode(30)), Ok((Key::Ascii(b'A'), false)));
    k.skip_count_for_pause = 1;
    assert_eq!(k.on_data_received(0x45), None);
    assert_eq!(k.skip_count_for_pause, 0);
}

#[test]
fn usb_keyboard_reports_new_keys_only() {
    let mut k = Keyboard::new().usb();
    k.set_report([0, 0, 4, 0x1E, 0, 0, 0, 0]);
    assert_eq!(k.on_data_received(), vec![(0, Key::Ascii(b'a')), (0, Key::Ascii(b'1'))]);
    // with left shift; 'a' was already down
    k.set_report([0x02, 0, 4, 5, 0, 0, 0, 0]);
    assert_eq!(k.on_data_received(), vec![(0x02, Key::Ascii(b'B'))]);
    k.set_report([0, 0, 57, 0, 0, 0, 0, 0]);
    assert_eq!(k.on_data_received(), vec![(0, Key::Special(KeySpecial::CapsLock))]);
    assert!(k.manager.capslock);
    k.set_report([0, 0, 4, 0, 0, 0, 0, 0]);
    assert_eq!(k.keycodes(), vec![Key::Ascii(b'A')]);
    assert_eq!(k.data_buffer_len(), 8);
}

#[test]
fn ps2_mouse_packets() {
    let mut m = Mouse::new().ps2();
    assert_eq!(m.on_data_received(0x09), None);
    assert_eq!(m.on_data_received(5), None);
    assert_eq!(m.on_data_received(3), Some((1, 0, 5, -3)));
    // negative x, button released
    assert_eq!(m.on_data_received(0x10), None);
    assert_eq!(m.on_data_received(0xFE), None);
    assert_eq!(m.on_data_received(0), Some((0, 1, -2, 0)));
    let fresh = PS2MouseDriver::new();
    assert_eq!(fresh.count, 0);
}

#[test]
fn usb_mouse_reports() {
    let mut m = Mouse::new().usb();
    m.set_report([0x03, 4, -2, 1]);
    assert_eq!(m.on_data_received(), (3, 0, 4, -2, 1));
    m.set_report([0x01, 0, 0, 0]);
    assert_eq!(m.on_data_received(), (0, 2, 0, 0, 0));
    assert_eq!(m.data_buffer_len(), 4);
    assert!(Mouse::usb_event(1, 0, -1, 2, 0) == MouseState::new(1, 0, -1, 2, 0));
    assert!(Mouse::ps2_event(1, 3, 4) == MouseState { pressed: 1, released: 6, x_v: 3, y_v: 4, z_v: 0 });
}

#[test]
fn mouse_events_merge() {
    let mut q = Queue::new(vec![MouseState::empty(); 32]);
    assert!(get_mouse_state_unblocked(&mut q).is_none());
    for i in 0..25 {
        q.enqueue(MouseState::new(if i == 3 { 2 } else { 0 }, if i == 4 { 1 } else { 0 }, 1, -1, 0)).unwrap();
    }
    let s = get_mouse_state_unblocked(&mut q).unwrap();
    assert!(s == MouseState { pressed: 2, released: 1, x_v: 20, y_v: -20, z_v: 0 });
    assert!(s.pressed(1) && !s.pressed(0) && s.released(0));
    assert_eq!((s.x_v(), s.y_v(), s.z_v()), (20, -20, 0));
    let rest = get_mouse_state_unblocked(&mut q).unwrap();
    assert_eq!(rest.x_v(), 5);
    assert!(get_mouse_state_unblocked(&mut q).is_none());
}

#[test]
fn pop_ascii_drops_special_keys_before_the_first_character() {
    let mut q = Queue::new(vec![Key::Special(KeySpecial::NoKey); 4]);
    q.enqueue(Key::Special(KeySpecial::Enter)).unwrap();
    q.enqueue(Key::Ascii(b'x')).unwrap();
    q.enqueue(Key::Ascii(b'y')).unwrap();
    assert_eq!(pop_ascii(&mut q), Some(b'x'));
    assert_eq!(pop_ascii(&mut q), Some(b'y'));
    q.enqueue(Key::Special(KeySpecial::Tab)).unwrap();
    assert_eq!(pop_ascii(&mut q), None);
    assert!(q.is_empty());
}

fn run_ps2(command: Ps2Command, events: &[Ps2Event]) -> Vec<Ps2Action> {
    let mut m = Ps2Machine::new(command);
    let mut actions = vec![m.action()];
    for e in events {
        actions.push(m.step(*e));
    }
    actions
}

#[test]
fn ps2_keyboard_activation_waits_for_the_ack() {
    let actions = run_ps2(Ps2Command::ActivateKeyboard, &[
        Ps2Event::Completed, Ps2Event::Completed, Ps2Event::Completed,
        // a keyboard byte, then the acknowledgement
        Ps2Event::Completed, Ps2Event::Byte(0x01), Ps2Event::Byte(0x1E), Ps2Event::Completed,
        Ps2Event::Completed, Ps2Event::Byte(0x21), Ps2Event::Byte(0xFA),
    ]);
    assert!(actions == vec![
        Ps2Action::Write(0x64, 0xAE), Ps2Action::WaitInputEmpty, Ps2Action::Write(0x60, 0xF4), Ps2Action::WaitOutputFull,
        Ps2Action::ReadState, Ps2Action::ReadData, Ps2Action::ToKeyboard(0x1E), Ps2Action::WaitOutputFull,
        Ps2Action::ReadState, Ps2Action::ReadData, Ps2Action::Done(true),
    ]);
    // a mouse command, and a hundred bytes without the acknowledgement
    let mut m = Ps2Machine::new(Ps2Command::ActivateMouse);
    assert!(m.action() == Ps2Action::Write(0x64, 0xA8));
    assert!(m.step(Ps2Event::Completed) == Ps2Action::Write(0x64, 0xD4));
    assert!(m.step(Ps2Event::Completed) == Ps2Action::WaitInputEmpty);
    assert!(m.step(Ps2Event::Completed) == Ps2Action::Write(0x60, 0xF4));
    let mut last = m.step(Ps2Event::Completed);
    for _ in 0..100 {
        assert!(last == Ps2Action::WaitOutputFull);
        assert!(m.step(Ps2Event::Completed) == Ps2Action::ReadState);
        assert!(m.step(Ps2Event::Byte(0x20)) == Ps2Action::ReadData);
        assert!(m.step(Ps2Event::Byte(0x08)) == Ps2Action::ToMouse(0x08));
        last = m.step(Ps2Event::Completed);
    }
    assert!(last == Ps2Action::Done(false));
}

#[test]
fn ps2_a20_leds_and_data() {
    let actions = run_ps2(Ps2Command::EnableA20Gate, &[Ps2Event::Completed, Ps2Event::Completed, Ps2Event::Byte(0x02), Ps2Event::Completed, Ps2Event::Completed, Ps2Event::Completed]);
    assert!(actions == vec![Ps2Action::Write(0x64, 0xD0), Ps2Action::WaitOutputFull, Ps2Action::ReadData, Ps2Action::WaitInputEmpty, Ps2Action::Write(0x64, 0xD1), Ps2Action::Write(0x60, 0x03), Ps2Action::Done(true)]);
    assert_eq!(led_byte(true, false, true), 5);
    let actions = run_ps2(Ps2Command::ChangeLed(led_byte(true, true, false)), &[
        Ps2Event::Completed, Ps2Event::Completed, Ps2Event::Completed, Ps2Event::Completed, Ps2Event::Byte(0x00), Ps2Event::Byte(0xFA), Ps2Event::Completed, Ps2Event::Completed, Ps2Event::Completed, Ps2Event::Byte(0x00), Ps2Event::Byte(0xFA),
    ]);
    assert!(actions == vec![
        Ps2Action::WaitInputEmpty, Ps2Action::Write(0x60, 0xED), Ps2Action::WaitInputEmpty, Ps2Action::WaitOutputFull, Ps2Action::ReadState, Ps2Action::ReadData,
        Ps2Action::Write(0x60, 6), Ps2Action::WaitInputEmpty, Ps2Action::WaitOutputFull, Ps2Action::ReadState, Ps2Action::ReadData, Ps2Action::Done(true),
    ]);
    // nothing in the output buffer
    assert!(run_ps2(Ps2Command::GetData, &[Ps2Event::Byte(0x00)]) == vec![Ps2Action::ReadState, Ps2Action::Done(true)]);
    assert!(run_ps2(Ps2Command::GetData, &[Ps2Event::Byte(0x21), Ps2Event::Byte(0x21), Ps2Event::Byte(0x09), Ps2Event::Completed])
        == vec![Ps2Action::ReadState, Ps2Action::ReadState, Ps2Action::ReadData, Ps2Action::ToMouse(0x09), Ps2Action::Done(true)]);
}

#[test]
fn mouse_merge_fits_checks_every_partial_sum() {
    let mut q = Queue::new(vec![MouseState::empty(); 4]);
    assert!(mouse_merge_fits(&q));
    q.enqueue(MouseState::new(0, 0, 30000, 0, 0)).unwrap();
    q.enqueue(MouseState::new(0, 0, -20000, 0, 0)).unwrap();
    assert!(mouse_merge_fits(&q));
    q.enqueue(MouseState::new(0, 0, 30000, 0, 0)).unwrap();
    // 30000 - 20000 + 30000 passes i16::MAX
    assert!(!mouse_merge_fits(&q));
}
