//! Register map of an AHCI host bus adapter and the per-port register window.
//!
//! Nothing in this module touches hardware. Register accesses are described as
//! values (an offset to read, an offset and a value to write) that the caller
//! carries out on its I/O binding, in the order in which they are handed out.
#![allow(non_upper_case_globals)]

use vstd::prelude::*;

verus! {

/// Size in bytes of one page of memory.
pub const PAGE_SIZE: usize = 0x1000;

/// Host capabilities.
pub const REG_CAP: usize = 0x00;

/// Global host control.
pub const REG_GHC: usize = 0x04;

/// Root interrupt status, one bit per port.
pub const REG_IS: usize = 0x08;

/// Ports implemented, one bit per port.
pub const REG_PI: usize = 0x0C;

/// Start of the first port's register block.
pub const REG_Px: usize = 0x100;

/// Distance in bytes between the register blocks of two neighbouring ports.
pub const PORT_STRIDE: usize = 0x80;

/// Number of ports an adapter can implement.
pub const MAX_PORTS: usize = 32;

/// Capabilities: the adapter can address 64 bits.
pub const CAP_S64A: u32 = 0x8000_0000;

/// Capabilities: number of command slots, minus one.
pub const CAP_NCS: u32 = 0x0000_1F00;

/// Capabilities: position of the number of command slots.
pub const CAP_NCS_ofs: u32 = 8;

/// Global host control: AHCI enable.
pub const GHC_AE: u32 = 0x8000_0000;

/// Global host control: interrupt enable.
pub const GHC_IE: u32 = 0x0000_0002;

/// Command list base address, low half.
pub const REG_PxCLB: usize = 0x00;

/// Command list base address, high half.
pub const REG_PxCLBU: usize = 0x04;

/// Received-FIS base address, low half.
pub const REG_PxFB: usize = 0x08;

/// Received-FIS base address, high half.
pub const REG_PxFBU: usize = 0x0C;

/// Port interrupt status.
pub const REG_PxIS: usize = 0x10;

/// Port interrupt enable.
pub const REG_PxIE: usize = 0x14;

/// Port command and status.
pub const REG_PxCMD: usize = 0x18;

/// Task file data.
pub const REG_PxTFD: usize = 0x20;

/// Device signature.
pub const REG_PxSIG: usize = 0x24;

/// SATA status.
pub const REG_PxSSTS: usize = 0x28;

/// SATA error.
pub const REG_PxSERR: usize = 0x30;

/// SATA active, one bit per command slot.
pub const REG_PxSACT: usize = 0x34;

/// Command issue, one bit per command slot.
pub const REG_PxCI: usize = 0x38;

/// Port command: start processing the command list.
pub const PxCMD_ST: u32 = 0x0000_0001;

/// Port command: FIS receive enable.
pub const PxCMD_FRE: u32 = 0x0000_0010;

/// Port command: FIS receive running.
pub const PxCMD_FR: u32 = 0x0000_4000;

/// Port command: command list running.
pub const PxCMD_CR: u32 = 0x0000_8000;

/// Port interrupt: device-to-host register FIS received.
pub const PxIS_DHRS: u32 = 0x0000_0001;

/// Port interrupt: PIO setup FIS received.
pub const PxIS_PSS: u32 = 0x0000_0002;

/// Port interrupt: DMA setup FIS received.
pub const PxIS_DSS: u32 = 0x0000_0004;

/// Port interrupt: task file error.
pub const PxIS_TFES: u32 = 0x4000_0000;

/// Port interrupt: cold port detect, the presence of a device changed.
pub const PxIS_CPDS: u32 = 0x8000_0000;

/// The interrupt causes that a port is set up to report: presence change,
/// device-to-host register FIS, PIO setup FIS, DMA setup FIS and task file
/// error.
pub const PORT_INTERRUPTS: u32 = 0xC000_0007;

/// Task file status: device busy.
pub const PxTFD_STS_BSY: u32 = 0x80;

/// Task file status: data request pending.
pub const PxTFD_STS_DRQ: u32 = 0x08;

/// SATA status: device detection field.
pub const PxSSTS_DET: u32 = 0x0000_000F;

/// SATA status: position of the device detection field.
pub const PxSSTS_DET_ofs: u32 = 0;

/// Value of the detection field once a device is present and the PHY link is up.
pub const SSTS_DET_ESTABLISHED: u32 = 3;

/// Error bits cleared in the SATA error register when a port is set up.
pub const SERR_CLEAR_ALL: u32 = 0x003F_F783;

/// Signature of an ATA disk.
pub const SIG_ATA: u32 = 0x0000_0101;

/// Signature of an ATAPI device.
pub const SIG_ATAPI: u32 = 0xEB14_0101;

/// ATA command IDENTIFY DEVICE.
pub const ATA_IDENTIFY: u8 = 0xEC;

/// ATA command IDENTIFY PACKET DEVICE.
pub const ATA_IDENTIFY_PACKET: u8 = 0xA1;

/// One 32-bit store into the adapter's register window.
#[derive(Clone, Copy, Debug, PartialEq, Eq, Structural)]
pub struct RegWrite {
    /// Byte offset of the register from the start of the window.
    pub offset: usize,
    /// The value to store.
    pub value: u32,
}

/// One entry of a port's command list.
#[derive(Clone, Copy, Debug, PartialEq, Eq, Structural)]
pub struct CmdHeader {
    /// Length of the command FIS in 32-bit words in the low five bits, the
    /// direction of the transfer in bit 6.
    pub flags: u16,
    /// Number of entries of the slot's scatter-gather list.
    pub prdtl: u16,
    /// Number of bytes transferred, kept by the adapter.
    pub prdbc: u32,
    /// Physical address of the slot's command table.
    pub ctba: u64,
}

impl CmdHeader {
    /// The header of a slot whose command table lies at `table_phys`, with no
    /// command in it.
    pub fn new(table_phys: u64) -> (r: CmdHeader)
        ensures
            r == (CmdHeader { flags: 0, prdtl: 0, prdbc: 0, ctba: table_phys }),
    {
        CmdHeader { flags: 0, prdtl: 0, prdbc: 0, ctba: table_phys }
    }
}

/// Command header flag: the command sends data to the device.
pub const CMD_FLAG_WRITE: u16 = 0x40;

/// Low half of a 64-bit address, as the low register of a pair takes it.
pub open spec fn low_half(addr: u64) -> u32 {
    (addr % 0x1_0000_0000) as u32
}

/// High half of a 64-bit address, as the high register of a pair takes it.
pub open spec fn high_half(addr: u64) -> u32 {
    (addr / 0x1_0000_0000) as u32
}

/// The bit that stands for slot or port `i` in a 32-bit register.
pub open spec fn bit(i: nat) -> u32
    recommends
        i < 32,
{
    1u32 << (i as u32)
}

/// Whether bit `i` of `mask` is set.
pub open spec fn has_bit(mask: u32, i: nat) -> bool
    recommends
        i < 32,
{
    mask & bit(i) != 0
}

/// The mask with bit `i` alone set.
pub fn bit_of(i: u8) -> (m: u32)
    requires
        i < 32,
    ensures
        m == bit(i as nat),
    no_unwind
{
    1u32 << (i as u32)
}

/// Tests bit `i` of `mask`.
pub fn test_bit(mask: u32, i: u8) -> (r: bool)
    requires
        i < 32,
    ensures
        r == has_bit(mask, i as nat),
    no_unwind
{
    mask & (1u32 << (i as u32)) != 0
}

/// Where a register of port `idx` lies in the adapter's window.
pub open spec fn port_reg(idx: nat, ofs: nat) -> nat {
    0x100 + idx * 0x80 + ofs
}

/// The register block of one port.
#[derive(Clone, Copy, Debug)]
pub struct PortRegs {
    idx: usize,
}

impl PortRegs {
    /// Index of the port whose registers these are.
    pub closed spec fn index(&self) -> nat {
        self.idx as nat
    }

    #[verifier::type_invariant]
    spec fn inv(&self) -> bool {
        self.idx < MAX_PORTS
    }

    /// The register block of port `port_idx`.
    pub fn new(port_idx: usize) -> (r: PortRegs)
        requires
            port_idx < MAX_PORTS,
        ensures
            r.index() == port_idx,
    {
        PortRegs { idx: port_idx }
    }

    /// The port's index.
    pub fn idx(&self) -> (r: usize)
        ensures
            r == self.index(),
            r < MAX_PORTS,
    {
        proof {
            use_type_invariant(self);
        }
        self.idx
    }

    /// The window offset at which the port register `ofs` is read.
    pub fn read(&self, ofs: usize) -> (at: usize)
        requires
            ofs < PORT_STRIDE,
            ofs % 4 == 0,
        ensures
            at == port_reg(self.index(), ofs as nat),
    {
        proof {
            use_type_invariant(self);
        }
        REG_Px + self.idx * PORT_STRIDE + ofs
    }

    /// The store that puts `val` into the port register `ofs`.
    pub fn write(&self, ofs: usize, val: u32) -> (w: RegWrite)
        requires
            ofs < PORT_STRIDE,
        ensures
            w.offset == port_reg(self.index(), ofs as nat),
            w.value == val,
    {
        proof {
            use_type_invariant(self);
        }
        RegWrite { offset: REG_Px + self.idx * PORT_STRIDE + ofs, value: val }
    }
}

/// The causes that a port reports are the five that the register map names.
pub proof fn lemma_port_interrupts()
    ensures
        PORT_INTERRUPTS == PxIS_CPDS | PxIS_DSS | PxIS_PSS | PxIS_DHRS | PxIS_TFES,
{
    assert(0xC000_0007u32 == 0x8000_0000u32 | 0x0000_0004u32 | 0x0000_0002u32 | 0x0000_0001u32
        | 0x4000_0000u32) by (bit_vector);
}

} // verus!
