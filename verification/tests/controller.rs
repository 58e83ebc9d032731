use tifflin::storage_ahci::controller::{Controller, ControllerInner};
use tifflin::device_manager::DriverBindError;
use tifflin::storage_ahci::hw::RegWrite;

#[test]
fn capabilities_give_slots_and_addressing() {
    let inner = ControllerInner::new(0xC000_1F00);
    assert_eq!(inner.max_commands, 32);
    assert!(inner.supports_64bit);
    let inner = ControllerInner::new(0x0000_0000);
    assert_eq!(inner.max_commands, 1);
    assert!(!inner.supports_64bit);
    let inner = ControllerInner::new(0x4034_0505);
    assert_eq!(inner.max_commands, 6);
    assert!(!inner.supports_64bit);
    let inner = ControllerInner::new(0xFFFF_E0FF);
    assert_eq!(inner.max_commands, 1);
    assert!(inner.supports_64bit);
}

#[test]
fn adapter_is_switched_to_ahci_first() {
    assert_eq!(Controller::enable_ahci(), RegWrite { offset: 0x04, value: 0x8000_0000 });
}

#[test]
fn implemented_ports_are_read_from_the_bitmap() {
    assert!(Controller::is_implemented(0b101, 0));
    assert!(!Controller::is_implemented(0b101, 1));
    assert!(Controller::is_implemented(0b101, 2));
    assert!(Controller::is_implemented(0x8000_0000, 31));
    assert!(!Controller::is_implemented(0xFFFF_FFFF, 32));
}

#[test]
fn running_port_is_told_to_go_idle() {
    let clear = Some(RegWrite { offset: 0x100 + 3 * 0x80 + 0x18, value: 0 });
    assert_eq!(Controller::idle_request(3, 0x0000_0001), clear);
    assert_eq!(Controller::idle_request(3, 0x0000_0010), clear);
    assert_eq!(Controller::idle_request(3, 0x0000_4000), clear);
    assert_eq!(Controller::idle_request(3, 0x0000_8000), clear);
    assert_eq!(Controller::idle_request(3, 0x0000_C011), clear);
    assert_eq!(Controller::idle_request(3, 0), None);
    assert_eq!(Controller::idle_request(3, 0xFFFF_3FEE), None);
}

#[test]
fn ports_are_added_in_the_order_of_their_indices() {
    let mut ctrl = Controller::new(0x0000_0300, 0b1010);
    assert_eq!(ctrl.inner.max_commands, 4);
    assert!(!ctrl.wants_port(0));
    assert!(ctrl.wants_port(1));
    assert!(ctrl.wants_port(3));
    let setup = ctrl.add_port(1, 0, vec![0x10_0000]).unwrap();
    assert_eq!(setup.headers.len(), 4);
    assert_eq!(setup.writes[0], RegWrite { offset: 0x100 + 0x80, value: 0x10_0000 });
    assert!(!ctrl.wants_port(1));
    assert!(!ctrl.wants_port(2));
    assert!(ctrl.wants_port(3));
    ctrl.add_port(3, 0x0000_0006, vec![0x20_0000]).unwrap();
    assert!(!ctrl.wants_port(3));
    assert!(!ctrl.wants_port(32));
    assert_eq!(ctrl.ports.len(), 2);
    assert_eq!(ctrl.ports[0].idx(), 1);
    assert_eq!(ctrl.ports[1].idx(), 3);
    assert_eq!(ctrl.ports[1].slots(), 4);
}

#[test]
fn port_with_a_running_engine_is_not_set_up() {
    let mut ctrl = Controller::new(0x0000_0300, 0b1);
    assert_eq!(ctrl.add_port(0, 0x0000_8000, vec![0x10_0000]).err(), Some(DriverBindError::DeviceBusy));
    assert_eq!(ctrl.add_port(0, 0x0000_4000, vec![0x10_0000]).err(), Some(DriverBindError::DeviceBusy));
    assert_eq!(ctrl.add_port(0, 0x0000_C000, Vec::new()).err(), Some(DriverBindError::DeviceBusy));
    assert!(ctrl.ports.is_empty());
    assert!(ctrl.add_port(0, 0x0000_0011, vec![0x10_0000]).is_ok());
}

#[test]
fn failed_allocation_aborts_the_port() {
    let mut ctrl = Controller::new(0x0000_1F00, 0b1);
    assert_eq!(ctrl.add_port(0, 0, vec![0x10_0000, 0x20_0000]).err(), Some(DriverBindError::OutOfMemory));
    assert_eq!(ctrl.add_port(0, 0, Vec::new()).err(), Some(DriverBindError::OutOfMemory));
    assert_eq!(
        ctrl.add_port(0, 0, vec![0x10_0000, 0x20_0000, 0x20_0800]).err(),
        Some(DriverBindError::BadMemory)
    );
    assert!(ctrl.ports.is_empty());
    assert!(ctrl.wants_port(0));
}

#[test]
fn interrupts_are_cleared_and_then_enabled() {
    let ctrl = Controller::new(0, 0);
    assert_eq!(
        ctrl.enable_interrupts(),
        vec![RegWrite { offset: 0x08, value: 0xFFFF_FFFF }, RegWrite { offset: 0x04, value: 0x8000_0002 }]
    );
}

#[test]
fn interrupt_goes_to_the_ports_whose_bit_is_set() {
    let mut ctrl = Controller::new(0x0000_0300, 0b1000_1010);
    ctrl.add_port(1, 0, vec![0x10_0000]).unwrap();
    ctrl.add_port(3, 0, vec![0x20_0000]).unwrap();
    ctrl.add_port(7, 0, vec![0x30_0000]).unwrap();
    assert_eq!(ctrl.handle_irq(0), 0);
    assert_eq!(ctrl.handle_irq(0b0000_0010), 0b0000_0010);
    assert_eq!(ctrl.handle_irq(0b1000_1000), 0b1000_1000);
    assert_eq!(ctrl.handle_irq(0xFFFF_FFFF), 0b1000_1010);
    assert_eq!(ctrl.handle_irq(0b0111_0101), 0);
}

#[test]
fn interrupt_without_ports_is_not_handled() {
    let ctrl = Controller::new(0x0000_0300, 0b11);
    assert_eq!(ctrl.handle_irq(0xFFFF_FFFF), 0);
}

#[test]
fn running_engines_are_recognised() {
    assert!(Controller::engine_running(0x0000_8000));
    assert!(Controller::engine_running(0x0000_4000));
    assert!(Controller::engine_running(0xFFFF_FFFF));
    assert!(!Controller::engine_running(0x0000_0011));
    assert!(!Controller::engine_running(0));
}
