//! The device manager: buses with their devices, drivers, and the choice of a
//! driver for each device.
//!
//! A bus is registered with the devices found on it. Each device is given to
//! the registered driver that ranks highest for it. Drivers registered later
//! do not take over devices of buses that are registered already.

use vstd::prelude::*;

verus! {

/// Why a driver could not take charge of a device.
#[derive(Clone, Copy, Debug, PartialEq, Eq, Structural)]
pub enum DriverBindError {
    /// The memory that the driver needs could not all be allocated.
    OutOfMemory,
    /// The allocator handed out memory that the driver cannot use: an address
    /// that is not the address of a page, the same page twice, or more than
    /// was asked for.
    BadMemory,
    /// The device is running and cannot be stopped, so it cannot be set up.
    DeviceBusy,
}

/// A run of pages mapped into the kernel's address space.
#[derive(Clone, Copy, Debug, PartialEq, Eq, Structural)]
pub struct AllocHandle {
    /// Virtual address of the first page.
    pub addr: usize,
    /// Number of pages.
    pub count: usize,
}

/// The way to a device's registers.
#[derive(Clone, Copy, Debug, PartialEq, Eq, Structural)]
pub enum IOBinding {
    /// Registers mapped into memory.
    Memory(AllocHandle),
    /// Registers in I/O space: the first port and the number of ports.
    IO(u16, u16),
}

/// A kind of bus.
pub trait BusManager {
    /// Name of the kind of bus.
    fn bus_type(&self) -> &str;

    /// Names of the attributes that a device of the bus has.
    fn get_attr_names(&self) -> &[&str];
}

/// A device on a bus.
pub trait BusDevice {
    /// Address of the device on its bus.
    fn addr(&self) -> u32;

    /// Value of the attribute `name`.
    fn get_attr(&self, name: &str) -> u32;

    /// Switches the device on or off.
    fn set_power(&mut self, state: bool);

    /// The way to the device's register block `block_id`.
    fn bind_io(&mut self, block_id: usize) -> IOBinding;
}

/// A driver in charge of a device.
pub trait DriverInstance {
}

/// A driver.
pub trait Driver {
    /// Name of the kind of bus whose devices the driver handles.
    fn bus_type(&self) -> &str;

    /// How well the driver handles `bus_dev`. Zero: not at all.
    fn handles(&self, bus_dev: &dyn BusDevice) -> usize;

    /// Takes charge of `bus_dev`.
    fn bind(&self, bus_dev: &dyn BusDevice) -> Result<Box<dyn DriverInstance>, DriverBindError>;
}

/// A device with the driver in charge of it.
pub struct Device {
    /// The device as its bus sees it.
    pub bus_dev: Box<dyn BusDevice>,
    /// The driver in charge, or none where no driver handles the device or
    /// the chosen driver could not take charge of it.
    pub driver: Option<Box<dyn DriverInstance>>,
    /// Values of the device's attributes that were read so far.
    pub attribs: Vec<u32>,
}

impl Device {
    /// The device `bus_dev` in the charge of `driver`, with no attribute
    /// read yet.
    fn new(bus_dev: Box<dyn BusDevice>, driver: Option<Box<dyn DriverInstance>>) -> (r: Device)
        ensures
            r.driver is Some <==> driver is Some,
            r.attribs@.len() == 0,
    {
        Device { bus_dev, driver, attribs: Vec::new() }
    }
}

/// A bus with its devices.
pub struct Bus {
    /// The kind of the bus.
    pub manager: &'static dyn BusManager,
    /// The devices on the bus, in the order in which they were registered.
    pub devices: Vec<Device>,
}

impl Bus {
    /// The bus of the kind `manager` with the devices `devices`.
    fn new(manager: &'static dyn BusManager, devices: Vec<Device>) -> (r: Bus)
        ensures
            r.devices@ == devices@,
    {
        Bus { manager, devices }
    }
}

/// The buses and the drivers that are registered.
pub struct DeviceManager {
    /// The buses, in the order in which they were registered.
    pub busses: Vec<Bus>,
    /// The drivers, in the order in which they were registered.
    pub drivers: Vec<&'static dyn Driver>,
}

/// Whether `best` is the choice among drivers with the rankings `rankings`:
/// a driver with the highest ranking, which is not zero, and of those with
/// that ranking the one registered first.
pub open spec fn is_best(rankings: Seq<usize>, best: int) -> bool {
    &&& 0 <= best < rankings.len()
    &&& rankings[best] > 0
    &&& forall|i: int| 0 <= i < rankings.len() ==> rankings[i] <= rankings[best]
    &&& forall|i: int| 0 <= i < best ==> rankings[i] < rankings[best]
}

/// Chooses among drivers by their rankings for a device, given in the order
/// in which the drivers were registered: the highest ranking wins, among
/// equals the driver registered first. A ranking of zero means that the driver
/// does not handle the device. `None` where no driver handles it.
pub fn best_driver(rankings: &[usize]) -> (r: Option<usize>)
    ensures
        match r {
            Some(best) => is_best(rankings@, best as int),
            None => forall|i: int| 0 <= i < rankings.len() ==> rankings[i] == 0,
        },
{
    let mut best_ranking: usize = 0;
    let mut best: Option<usize> = None;
    let mut i: usize = 0;
    while i < rankings.len()
        invariant
            i <= rankings.len(),
            forall|k: int| 0 <= k < i ==> rankings[k] <= best_ranking,
            match best {
                Some(b) => b < i && rankings[b as int] == best_ranking && best_ranking > 0
                    && forall|k: int| 0 <= k < b ==> rankings[k] < best_ranking,
                None => best_ranking == 0,
            },
        decreases rankings.len() - i,
    {
        let ranking = rankings[i];
        if ranking > best_ranking {
            best = Some(i);
            best_ranking = ranking;
        }
        i += 1;
    }
    best
}

/// Whether the two names are the same.
fn same_name(a: &str, b: &str) -> (r: bool)
    ensures
        r == (a@ == b@),
{
    a.to_owned() == b.to_owned()
}

/// Asks each of `drivers` that handles buses of the kind of `bus` how well it
/// handles `bus_dev`. The rankings come in the order of the drivers, zero for
/// a driver for another kind of bus.
fn rank_drivers(drivers: &Vec<&'static dyn Driver>, bus: &dyn BusManager, bus_dev: &dyn BusDevice) -> (r:
    Vec<usize>)
    ensures
        r.len() == drivers.len(),
{
    let mut rankings: Vec<usize> = Vec::with_capacity(drivers.len());
    let mut i: usize = 0;
    while i < drivers.len()
        invariant
            i <= drivers.len(),
            rankings.len() == i,
        decreases drivers.len() - i,
    {
        let driver = drivers[i];
        if same_name(bus.bus_type(), driver.bus_type()) {
            rankings.push(driver.handles(bus_dev));
        } else {
            rankings.push(0);
        }
        i += 1;
    }
    rankings
}

/// Finds the best of `drivers` for the device `bus_dev` on `bus` and lets it
/// take charge. `None` where no driver handles the device, and where the
/// chosen driver could not take charge of it.
fn find_driver(drivers: &Vec<&'static dyn Driver>, bus: &dyn BusManager, bus_dev: &dyn BusDevice) -> (r:
    Option<Box<dyn DriverInstance>>)
    ensures
        drivers.len() == 0 ==> r is None,
{
    let rankings = rank_drivers(drivers, bus, bus_dev);
    match best_driver(rankings.as_slice()) {
        Some(best) => drivers[best].bind(bus_dev).ok(),
        None => None,
    }
}

impl DeviceManager {
    /// A device manager that knows no bus and no driver.
    pub fn new() -> (r: DeviceManager)
        ensures
            r.busses@.len() == 0,
            r.drivers@.len() == 0,
    {
        DeviceManager { busses: Vec::new(), drivers: Vec::new() }
    }
}

/// Registers a bus and its devices. Each device is given to the best of the
/// drivers registered so far.
pub fn register_bus(
    registry: &mut DeviceManager,
    manager: &'static dyn BusManager,
    devices: Vec<Box<dyn BusDevice>>,
)
    ensures
        final(registry).drivers@ == old(registry).drivers@,
        final(registry).busses@.len() == old(registry).busses@.len() + 1,
        final(registry).busses@.drop_last() == old(registry).busses@,
        final(registry).busses@.last().devices@.len() == devices@.len(),
        forall|k: int|
            0 <= k < devices@.len() ==> (#[trigger] final(registry).busses@.last().devices@[k]).attribs@.len()
                == 0,
        old(registry).drivers@.len() == 0 ==> forall|k: int|
            0 <= k < devices@.len() ==> (#[trigger] final(registry).busses@.last().devices@[k]).driver
                is None,
{
    let mut bound: Vec<Device> = Vec::with_capacity(devices.len());
    let mut devices = devices;
    let ghost total = devices@.len();
    while devices.len() > 0
        invariant
            bound@.len() + devices@.len() == total,
            *registry == *old(registry),
            forall|k: int| 0 <= k < bound@.len() ==> (#[trigger] bound@[k]).attribs@.len() == 0,
            registry.drivers@.len() == 0 ==> forall|k: int|
                0 <= k < bound@.len() ==> (#[trigger] bound@[k]).driver is None,
        decreases devices.len(),
    {
        let d = devices.remove(0);
        let driver = find_driver(&registry.drivers, manager, &*d);
        bound.push(Device::new(d, driver));
    }
    registry.busses.push(Bus::new(manager, bound));
    proof {
        assert(registry.busses@.drop_last() =~= old(registry).busses@);
    }
}

/// Registers a driver. Devices of buses that are registered already stay
/// with the drivers they have, or without one.
pub fn register_driver(registry: &mut DeviceManager, driver: &'static dyn Driver)
    ensures
        final(registry).drivers@ == old(registry).drivers@.push(driver),
        final(registry).busses@ == old(registry).busses@,
{
    registry.drivers.push(driver);
}

} // verus!
