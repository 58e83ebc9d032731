//! Verified cores of three parts of an operating system: the command engine
//! of the AHCI storage driver, the device manager's choice of drivers, and
//! the drawing surface of the window toolkit.

pub mod device_manager;
pub mod storage_ahci;
pub mod wtk;
