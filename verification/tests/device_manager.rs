use std::cell::Cell;
use tifflin::device_manager::{
    best_driver, register_bus, register_driver, BusDevice, BusManager, DeviceManager, Driver,
    DriverBindError, DriverInstance, IOBinding,
};

struct TestBus {
    name: &'static str,
}

impl BusManager for TestBus {
    fn bus_type(&self) -> &str {
        self.name
    }

    fn get_attr_names(&self) -> &[&str] {
        &["vendor", "device"]
    }
}

struct TestDevice {
    addr: u32,
}

impl BusDevice for TestDevice {
    fn addr(&self) -> u32 {
        self.addr
    }

    fn get_attr(&self, _name: &str) -> u32 {
        0
    }

    fn set_power(&mut self, _state: bool) {}

    fn bind_io(&mut self, block_id: usize) -> IOBinding {
        IOBinding::IO(0x1F0 + block_id as u16, 8)
    }
}

struct TestInstance;

impl DriverInstance for TestInstance {}

struct TestDriver {
    bus: &'static str,
    ranking: usize,
    fails: bool,
    asked: Cell<usize>,
    bound: Cell<usize>,
}

impl TestDriver {
    fn leak(bus: &'static str, ranking: usize) -> &'static TestDriver {
        Box::leak(Box::new(TestDriver {
            bus,
            ranking,
            fails: false,
            asked: Cell::new(0),
            bound: Cell::new(0),
        }))
    }

    fn leak_failing(bus: &'static str, ranking: usize) -> &'static TestDriver {
        Box::leak(Box::new(TestDriver {
            bus,
            ranking,
            fails: true,
            asked: Cell::new(0),
            bound: Cell::new(0),
        }))
    }

    fn bound(&self) -> usize {
        self.bound.get()
    }

    fn asked(&self) -> usize {
        self.asked.get()
    }
}

impl Driver for TestDriver {
    fn bus_type(&self) -> &str {
        self.bus
    }

    fn handles(&self, bus_dev: &dyn BusDevice) -> usize {
        self.asked.set(self.asked.get() + 1);
        if bus_dev.addr() == 0xDEAD {
            0
        } else {
            self.ranking
        }
    }

    fn bind(&self, _bus_dev: &dyn BusDevice) -> Result<Box<dyn DriverInstance>, DriverBindError> {
        self.bound.set(self.bound.get() + 1);
        if self.fails {
            Err(DriverBindError::OutOfMemory)
        } else {
            Ok(Box::new(TestInstance))
        }
    }
}

fn bus(name: &'static str) -> &'static TestBus {
    Box::leak(Box::new(TestBus { name }))
}

fn device(addr: u32) -> Box<dyn BusDevice> {
    Box::new(TestDevice { addr })
}

#[test]
fn highest_ranking_wins() {
    assert_eq!(best_driver(&[5, 10]), Some(1));
    assert_eq!(best_driver(&[10, 5]), Some(0));
    assert_eq!(best_driver(&[1, 7, 3, 7, 2]), Some(1));
    assert_eq!(best_driver(&[0, 0, 4]), Some(2));
}

#[test]
fn first_registered_wins_a_tie() {
    assert_eq!(best_driver(&[5, 5]), Some(0));
    assert_eq!(best_driver(&[0, 3, 3, 3]), Some(1));
}

#[test]
fn ranking_zero_never_wins() {
    assert_eq!(best_driver(&[]), None);
    assert_eq!(best_driver(&[0]), None);
    assert_eq!(best_driver(&[0, 0, 0]), None);
}

#[test]
fn device_goes_to_the_driver_that_ranks_higher() {
    let d1 = TestDriver::leak("x", 5);
    let d2 = TestDriver::leak("x", 10);
    let mut reg = DeviceManager::new();
    register_driver(&mut reg, d1);
    register_driver(&mut reg, d2);
    register_bus(&mut reg, bus("x"), vec![device(1)]);
    assert_eq!(d1.bound(), 0);
    assert_eq!(d2.bound(), 1);
    assert_eq!(reg.busses.len(), 1);
    assert_eq!(reg.busses[0].devices.len(), 1);
    assert!(reg.busses[0].devices[0].driver.is_some());
    assert!(reg.busses[0].devices[0].attribs.is_empty());
    assert_eq!(reg.busses[0].devices[0].bus_dev.addr(), 1);
}

#[test]
fn equal_rankings_go_to_the_driver_registered_first() {
    let d1 = TestDriver::leak("x", 5);
    let d2 = TestDriver::leak("x", 5);
    let mut reg = DeviceManager::new();
    register_driver(&mut reg, d1);
    register_driver(&mut reg, d2);
    register_bus(&mut reg, bus("x"), vec![device(1)]);
    assert_eq!(d1.bound(), 1);
    assert_eq!(d2.bound(), 0);
}

#[test]
fn drivers_for_other_buses_are_not_asked() {
    let d1 = TestDriver::leak("y", 50);
    let d2 = TestDriver::leak("x", 1);
    let mut reg = DeviceManager::new();
    register_driver(&mut reg, d1);
    register_driver(&mut reg, d2);
    register_bus(&mut reg, bus("x"), vec![device(1), device(2)]);
    assert_eq!(d1.asked(), 0);
    assert_eq!(d1.bound(), 0);
    assert_eq!(d2.asked(), 2);
    assert_eq!(d2.bound(), 2);
    assert_eq!(reg.busses[0].manager.bus_type(), "x");
}

#[test]
fn device_that_no_driver_handles_stays_without_one() {
    let d1 = TestDriver::leak("x", 5);
    let mut reg = DeviceManager::new();
    register_driver(&mut reg, d1);
    register_bus(&mut reg, bus("x"), vec![device(0xDEAD), device(7)]);
    assert_eq!(d1.bound(), 1);
    assert!(reg.busses[0].devices[0].driver.is_none());
    assert!(reg.busses[0].devices[1].driver.is_some());
    assert_eq!(reg.busses[0].devices[0].bus_dev.addr(), 0xDEAD);
    assert_eq!(reg.busses[0].devices[1].bus_dev.addr(), 7);
}

#[test]
fn bus_without_drivers_binds_nothing() {
    let mut reg = DeviceManager::new();
    register_bus(&mut reg, bus("x"), vec![device(1), device(2), device(3)]);
    assert_eq!(reg.busses[0].devices.len(), 3);
    for d in reg.busses[0].devices.iter() {
        assert!(d.driver.is_none());
    }
}

#[test]
fn driver_registered_later_does_not_take_over() {
    let d1 = TestDriver::leak("x", 5);
    let mut reg = DeviceManager::new();
    register_bus(&mut reg, bus("x"), vec![device(1)]);
    register_driver(&mut reg, d1);
    assert_eq!(d1.asked(), 0);
    assert_eq!(d1.bound(), 0);
    assert!(reg.busses[0].devices[0].driver.is_none());
    assert_eq!(reg.drivers.len(), 1);
    register_bus(&mut reg, bus("x"), vec![device(2)]);
    assert_eq!(d1.bound(), 1);
    assert_eq!(reg.busses.len(), 2);
    assert!(reg.busses[1].devices[0].driver.is_some());
}

#[test]
fn device_is_skipped_when_its_driver_cannot_bind() {
    let d1 = TestDriver::leak_failing("x", 9);
    let d2 = TestDriver::leak("x", 3);
    let mut reg = DeviceManager::new();
    register_driver(&mut reg, d1);
    register_driver(&mut reg, d2);
    register_bus(&mut reg, bus("x"), vec![device(1)]);
    assert_eq!(d1.bound(), 1);
    assert_eq!(d2.bound(), 0);
    assert!(reg.busses[0].devices[0].driver.is_none());
}

#[test]
fn io_binding_keeps_its_parts() {
    let mut dev = TestDevice { addr: 3 };
    assert_eq!(dev.bind_io(2), IOBinding::IO(0x1F2, 8));
    dev.set_power(true);
    assert_eq!(dev.get_attr("vendor"), 0);
    assert_eq!(bus("pci").get_attr_names().len(), 2);
}
