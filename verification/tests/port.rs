use tifflin::device_manager::DriverBindError;
use tifflin::storage_ahci::error::AhciError;
use tifflin::storage_ahci::hw::{CmdHeader, RegWrite};
use tifflin::storage_ahci::layout::TableRef;
use tifflin::storage_ahci::port::{DataPtr, Detection, IrqRegs, Port};
use tifflin::storage_ahci::prdt::{DmaBuffer, PrdtEntry, PRDT_IOC};

fn port_with(idx: usize, max: usize) -> Port {
    let pages: Vec<u64> = match max {
        0..=13 => vec![0x10_0000],
        14..=27 => vec![0x10_0000, 0x20_0000],
        _ => vec![0x10_0000, 0x20_0000, 0x30_0000],
    };
    Port::new(idx, max, pages).unwrap().0
}

#[test]
fn new_port_programs_its_registers() {
    let (port, setup) = Port::new(2, 32, vec![0x1_2345_6000, 0x20_0000, 0x30_0000]).unwrap();
    assert_eq!(port.idx(), 2);
    assert_eq!(port.slots(), 32);
    assert_eq!(port.used_commands(), 0);
    assert_eq!(port.free_slots(), 32);
    let base = 0x100 + 2 * 0x80;
    assert_eq!(
        setup.writes,
        vec![
            RegWrite { offset: base + 0x00, value: 0x2345_6000 },
            RegWrite { offset: base + 0x04, value: 0x1 },
            RegWrite { offset: base + 0x08, value: 0x2345_6F00 },
            RegWrite { offset: base + 0x0C, value: 0x1 },
            RegWrite { offset: base + 0x34, value: 0 },
            RegWrite { offset: base + 0x30, value: 0x003F_F783 },
            RegWrite { offset: base + 0x10, value: 0xFFFF_FFFF },
            RegWrite { offset: base + 0x14, value: 0xC000_0007 },
        ]
    );
}

#[test]
fn new_port_points_each_header_at_its_table() {
    let (_, setup) = Port::new(0, 32, vec![0x10_0000, 0x20_0000, 0x30_0000]).unwrap();
    assert_eq!(setup.headers.len(), 32);
    for (i, h) in setup.headers.iter().enumerate() {
        let ctba = if i < 11 {
            0x10_0000 + 1024 + (i as u64) * 256
        } else if i < 27 {
            0x20_0000 + ((i - 11) as u64) * 256
        } else {
            0x30_0000 + ((i - 27) as u64) * 256
        };
        assert_eq!(*h, CmdHeader { flags: 0, prdtl: 0, prdbc: 0, ctba });
    }
}

#[test]
fn new_port_with_too_few_pages_is_out_of_memory() {
    assert_eq!(Port::new(0, 32, vec![0x10_0000, 0x20_0000]).err(), Some(DriverBindError::OutOfMemory));
    assert_eq!(Port::new(0, 32, Vec::new()).err(), Some(DriverBindError::OutOfMemory));
    assert_eq!(Port::new(0, 1, Vec::new()).err(), Some(DriverBindError::OutOfMemory));
}

#[test]
fn new_port_with_unusable_pages_is_refused() {
    assert_eq!(Port::new(0, 4, vec![0x10_0010]).err(), Some(DriverBindError::BadMemory));
    assert_eq!(Port::new(0, 4, vec![0x10_0000, 0x20_0000]).err(), Some(DriverBindError::BadMemory));
    assert_eq!(
        Port::new(0, 32, vec![0x10_0000, 0x20_0000, 0x20_0000]).err(),
        Some(DriverBindError::BadMemory)
    );
}

#[test]
fn start_engine_sets_start_and_fis_receive() {
    let port = port_with(1, 4);
    assert_eq!(port.start_engine(0x0000_0006), RegWrite { offset: 0x100 + 0x80 + 0x18, value: 0x0000_0017 });
    assert_eq!(port.start_engine(0), RegWrite { offset: 0x100 + 0x80 + 0x18, value: 0x11 });
}

#[test]
fn ata_signature_issues_identify() {
    let port = port_with(0, 4);
    let found = port.update_connection(0x50, 0x123, 0x0000_0101);
    assert_eq!(found, Detection::Ata);
    assert_eq!(found.identify_command(), Some(0xEC));
}

#[test]
fn atapi_signature_issues_identify_packet() {
    let port = port_with(0, 4);
    let found = port.update_connection(0x50, 0x113, 0xEB14_0101);
    assert_eq!(found, Detection::Atapi);
    assert_eq!(found.identify_command(), Some(0xA1));
}

#[test]
fn other_signatures_issue_no_command() {
    let port = port_with(0, 4);
    for sig in [0u32, 0x0000_0100, 0x0000_0102, 0xEB14_0100, 0xC33C_0101, 0x9669_0101, 0xFFFF_FFFF] {
        let found = port.update_connection(0x50, 0x123, sig);
        assert_eq!(found, Detection::Unknown(sig));
        assert_eq!(found.identify_command(), None);
    }
}

#[test]
fn busy_or_absent_device_is_not_asked() {
    let port = port_with(0, 4);
    assert_eq!(port.update_connection(0x80, 0x123, 0x101), Detection::NotReady);
    assert_eq!(port.update_connection(0x08, 0x123, 0x101), Detection::NotReady);
    assert_eq!(port.update_connection(0x88, 0x123, 0xEB14_0101), Detection::NotReady);
    assert_eq!(port.update_connection(0x50, 0x000, 0x101), Detection::NotReady);
    assert_eq!(port.update_connection(0x50, 0x121, 0x101), Detection::NotReady);
    assert_eq!(port.update_connection(0x50, 0x124, 0x101), Detection::NotReady);
    assert_eq!(port.update_connection(0x50, 0x123, 0x101).identify_command(), Some(0xEC));
    assert_eq!(port.update_connection(0x80, 0x123, 0x101).identify_command(), None);
}

#[test]
fn slots_come_in_order_with_their_tables() {
    let mut port = port_with(3, 32);
    for n in 0..32u8 {
        let slot = port.get_command_slot().unwrap();
        assert_eq!(slot.idx(), n);
        let table = if n < 11 {
            TableRef::Shared { index: n as usize }
        } else {
            TableRef::Extra { page: (n as usize - 11) / 16, index: (n as usize - 11) % 16 }
        };
        assert_eq!(slot.table_ref(), table);
        assert!(port.holds(&slot));
    }
    assert!(port.get_command_slot().is_none());
    assert_eq!(port.used_commands(), 0xFFFF_FFFF);
    assert_eq!(port.free_slots(), 0);
}

#[test]
fn slot_start_writes_active_then_issue() {
    let mut port = port_with(5, 8);
    let _first = port.get_command_slot().unwrap();
    let slot = port.get_command_slot().unwrap();
    let base = 0x100 + 5 * 0x80;
    assert_eq!(
        slot.start(),
        vec![RegWrite { offset: base + 0x34, value: 0b10 }, RegWrite { offset: base + 0x38, value: 0b10 }]
    );
}

#[test]
fn wait_judges_the_outcome() {
    let mut port = port_with(0, 8);
    let _s0 = port.get_command_slot().unwrap();
    let _s1 = port.get_command_slot().unwrap();
    let slot = port.get_command_slot().unwrap();
    assert_eq!(slot.idx(), 2);
    assert_eq!(slot.wait(0, 0), Ok(()));
    assert_eq!(slot.wait(0b1011, 0b0011), Ok(()));
    assert_eq!(slot.wait(0b0100, 0), Err(AhciError::SpuriousWake));
    assert_eq!(slot.wait(0b0100, 0b0100), Err(AhciError::DeviceError));
    assert_eq!(slot.wait(0, 0b0100), Err(AhciError::DeviceError));
}

#[test]
fn release_frees_an_idle_slot() {
    let mut port = port_with(0, 2);
    let a = port.get_command_slot().unwrap();
    let b = port.get_command_slot().unwrap();
    assert!(port.get_command_slot().is_none());
    assert_eq!(port.release_slot(a, 0b10), Ok(()));
    assert_eq!(port.used_commands(), 0b10);
    assert_eq!(port.free_slots(), 1);
    assert_eq!(port.release_slot(b, 0), Ok(()));
    assert_eq!(port.used_commands(), 0);
    assert_eq!(port.free_slots(), 2);
}

#[test]
fn release_of_an_active_slot_is_a_violation() {
    let mut port = port_with(0, 2);
    let a = port.get_command_slot().unwrap();
    assert_eq!(port.release_slot(a, 0b01), Err(AhciError::SlotStillActive));
    assert_eq!(port.used_commands(), 0b01);
    assert_eq!(port.free_slots(), 1);
}

#[test]
fn a_slot_of_another_port_is_not_held() {
    let mut p0 = port_with(0, 2);
    let mut p1 = port_with(1, 2);
    let a = p0.get_command_slot().unwrap();
    let b = p1.get_command_slot().unwrap();
    assert!(p0.holds(&a));
    assert!(!p0.holds(&b));
    assert!(p1.holds(&b));
    assert!(!p1.holds(&a));
}

#[test]
fn interrupt_posts_completed_slots() {
    let mut port = port_with(4, 8);
    for _ in 0..4 {
        port.get_command_slot().unwrap();
    }
    // slot 0: issue cleared; slot 1: active cleared; slot 2: still running;
    // slot 3: running but marked in the error register.
    let regs = IrqRegs { int_status: 0x0000_0001, issued: 0b1110, active: 0b1101, error: 0b1000 };
    let report = port.handle_irq(regs);
    assert_eq!(report.completed, 0b1011);
    assert_eq!(report.errored, 0b1000);
    assert_eq!(report.stray, 0);
    assert!(report.device_register_update);
    assert!(!report.pio_setup_update);
    assert!(!report.task_file_error);
    assert!(!report.presence_change);
    assert_eq!(report.ack, RegWrite { offset: 0x100 + 4 * 0x80 + 0x10, value: 0x0000_0001 });
    assert_eq!(port.used_commands(), 0b1111);
}

#[test]
fn interrupt_reports_its_causes() {
    let port = port_with(0, 8);
    let report = port.handle_irq(IrqRegs { int_status: 0xC000_0002, issued: 0, active: 0, error: 0 });
    assert!(report.presence_change);
    assert!(report.task_file_error);
    assert!(report.pio_setup_update);
    assert!(!report.device_register_update);
    assert_eq!(report.completed, 0);
    assert_eq!(report.ack.value, 0xC000_0002);
}

#[test]
fn interrupt_warns_of_slots_active_but_not_taken() {
    let mut port = port_with(0, 4);
    port.get_command_slot().unwrap();
    let report = port.handle_irq(IrqRegs { int_status: 0, issued: 0b0111, active: 0b1111_0111, error: 0 });
    assert_eq!(report.completed, 0);
    assert_eq!(report.stray, 0b0110);
}

#[test]
fn interrupt_ignores_free_slots_and_slots_beyond_the_port() {
    let mut port = port_with(0, 2);
    port.get_command_slot().unwrap();
    let report = port.handle_irq(IrqRegs { int_status: 0, issued: 0, active: 0, error: 0xFFFF_FFFF });
    assert_eq!(report.completed, 0b01);
    assert_eq!(report.errored, 0);
    assert_eq!(report.stray, 0);
}

#[test]
fn do_fis_lays_out_a_receive_command() {
    let mut port = port_with(0, 4);
    let buf = DmaBuffer::new(0x2000, 512, vec![0x7_7000]).unwrap();
    let cmd = [0x27u8, 0x80, 0xEC, 0, 0, 0, 0, 0x40, 0, 0, 0, 0, 0, 0, 0, 0, 0, 0, 0, 0];
    let c = port.do_fis(&cmd, &[], &DataPtr::Recv(&buf)).unwrap().unwrap();
    assert_eq!(c.slot.idx(), 0);
    assert_eq!(c.cmd_fis, cmd.to_vec());
    assert!(c.atapi_cmd.is_empty());
    assert_eq!(c.prdt, vec![PrdtEntry { dba: 0x7_7000, dbc: 511 | PRDT_IOC }]);
    assert_eq!(c.prdtl, 1);
    assert_eq!(c.flags, 5);
    assert_eq!(port.used_commands(), 1);
    assert_eq!(port.free_slots(), 3);
}

#[test]
fn do_fis_marks_a_send_command() {
    let mut port = port_with(0, 4);
    port.get_command_slot().unwrap();
    let buf = DmaBuffer::new(0x2000, 8192, vec![0x7_7000, 0x9_9000]).unwrap();
    let cmd = [0u8; 20];
    let pkt = [0xA8u8, 0, 0, 0, 0, 0x10, 0, 0, 0, 1, 0, 0];
    let c = port.do_fis(&cmd, &pkt, &DataPtr::Send(&buf)).unwrap().unwrap();
    assert_eq!(c.slot.idx(), 1);
    assert_eq!(c.atapi_cmd, pkt.to_vec());
    assert_eq!(c.prdtl, 2);
    assert_eq!(c.flags, 0x40 | 5);
    assert_eq!(c.prdt[0], PrdtEntry { dba: 0x7_7000, dbc: 4095 });
    assert_eq!(c.prdt[1], PrdtEntry { dba: 0x9_9000, dbc: 4095 | PRDT_IOC });
}

#[test]
fn do_fis_refuses_an_unaligned_buffer() {
    let mut port = port_with(0, 4);
    let buf = DmaBuffer::new(0x2001, 512, vec![0x7_7000]).unwrap();
    let r = port.do_fis(&[0u8; 20], &[], &DataPtr::Recv(&buf));
    assert_eq!(r.err(), Some(AhciError::UnalignedBuffer));
    assert_eq!(port.used_commands(), 0);
    assert_eq!(port.free_slots(), 4);
}

#[test]
fn do_fis_refuses_more_segments_than_a_table_holds() {
    let mut port = port_with(0, 4);
    let frames: Vec<u64> = (0..9).map(|i| 0x10_0000 + (i as u64) * 0x2000).collect();
    let buf = DmaBuffer::new(0, 9 * 4096, frames).unwrap();
    let r = port.do_fis(&[0u8; 20], &[], &DataPtr::Recv(&buf));
    assert_eq!(r.err(), Some(AhciError::TooManySegments));
    assert_eq!(port.used_commands(), 0);
    let frames: Vec<u64> = (0..8).map(|i| 0x10_0000 + (i as u64) * 0x2000).collect();
    let buf = DmaBuffer::new(0, 8 * 4096, frames).unwrap();
    let c = port.do_fis(&[0u8; 20], &[], &DataPtr::Recv(&buf)).unwrap().unwrap();
    assert_eq!(c.prdtl, 8);
}

#[test]
fn do_fis_waits_when_no_slot_is_free() {
    let mut port = port_with(0, 1);
    let buf = DmaBuffer::new(0x2000, 512, vec![0x7_7000]).unwrap();
    let first = port.do_fis(&[0u8; 20], &[], &DataPtr::Recv(&buf)).unwrap().unwrap();
    assert!(port.do_fis(&[0u8; 20], &[], &DataPtr::Recv(&buf)).unwrap().is_none());
    assert_eq!(port.used_commands(), 1);
    assert_eq!(port.release_slot(first.slot, 0), Ok(()));
    assert!(port.do_fis(&[0u8; 20], &[], &DataPtr::Recv(&buf)).unwrap().is_some());
}

#[test]
fn request_ata_lba28_builds_the_frame() {
    let mut port = port_with(0, 4);
    let buf = DmaBuffer::new(0x2000, 3 * 512, vec![0x7_7000]).unwrap();
    let c = port.request_ata_lba28(1, 0xC8, 3, 0x00AB_CDEF, &DataPtr::Recv(&buf)).unwrap().unwrap();
    assert_eq!(
        c.cmd_fis,
        vec![0x27, 0x80, 0xC8, 0, 0xEF, 0xCD, 0xAB, 0x50, 0, 0, 0, 0, 3, 0, 0, 0, 0, 0, 0, 0]
    );
    assert!(c.atapi_cmd.is_empty());
    assert_eq!(c.flags, 5);
    assert_eq!(c.prdtl, 1);
}

#[test]
fn request_identify_receives_into_the_buffer() {
    let mut port = port_with(0, 4);
    let buf = DmaBuffer::new(0x6000, 512, vec![0x4_4000]).unwrap();
    let c = port.request_identify(0xEC, &buf).unwrap().unwrap();
    assert_eq!(
        c.cmd_fis,
        vec![0x27, 0x80, 0xEC, 0, 0, 0, 0, 0x40, 0, 0, 0, 0, 0, 0, 0, 0, 0, 0, 0, 0]
    );
    assert_eq!(c.flags, 5);
    assert_eq!(c.prdt, vec![PrdtEntry { dba: 0x4_4000, dbc: 511 | PRDT_IOC }]);
    let c = port.request_identify(0xA1, &buf).unwrap().unwrap();
    assert_eq!(c.cmd_fis[2], 0xA1);
    assert_eq!(c.slot.idx(), 1);
}

#[test]
fn data_pointer_knows_its_direction() {
    let buf = DmaBuffer::new(0x6000, 512, vec![0x4_4000]).unwrap();
    assert!(DataPtr::Send(&buf).is_send());
    assert!(!DataPtr::Recv(&buf).is_send());
    assert_eq!(DataPtr::Send(&buf).as_slice().len(), 512);
}
