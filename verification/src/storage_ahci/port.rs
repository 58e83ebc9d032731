//! One SATA port of the adapter: its memory, its command slots, and what it
//! does with the values read from its registers.
//!
//! A port never touches hardware itself. Its operations take the values that
//! the caller read from the port's registers and hand back the stores to
//! perform and the events to post.

use vstd::prelude::*;
use crate::storage_ahci::error::AhciError;
use crate::storage_ahci::hw::{
    bit, bit_of, has_bit, high_half, low_half, port_reg, test_bit, CmdHeader, PortRegs, RegWrite,
    ATA_IDENTIFY, ATA_IDENTIFY_PACKET, CMD_FLAG_WRITE, MAX_PORTS, PORT_INTERRUPTS, PxCMD_FRE,
    PxCMD_ST, PxIS_CPDS, PxIS_DHRS, PxIS_PSS, PxIS_TFES, PxSSTS_DET, PxSSTS_DET_ofs,
    PxTFD_STS_BSY, PxTFD_STS_DRQ, REG_PxCI, REG_PxCLB, REG_PxCLBU, REG_PxCMD, REG_PxFB,
    REG_PxFBU, REG_PxIE, REG_PxIS, REG_PxSACT, REG_PxSERR, SERR_CLEAR_ALL, SIG_ATA, SIG_ATAPI,
    SSTS_DET_ESTABLISHED,
};
use crate::device_manager::DriverBindError;
use crate::storage_ahci::layout::{
    cmdidx_to_ref, extra_pages_for, pages_fit, table_pages_needed, table_ref, PortMemory,
    TableRef, ATAPI_CMD_SIZE, CMD_FIS_SIZE, MAX_COMMANDS, PRDT_ENTRIES,
};
use crate::storage_ahci::fis::{lba28_fis, FisHost2DevReg, LBA28_LIMIT};
use crate::storage_ahci::prdt::{all_aligned, prdt_of, DmaBuffer, PrdtEntry};
use crate::storage_ahci::slots::{lemma_take_bit, PoolState, SlotPool};

verus! {

/// What has to reach the hardware before a new port can run.
#[derive(Debug)]
pub struct PortSetup {
    /// The command list: for each slot the header that points at the slot's
    /// command table. It goes to the start of the command list's page.
    pub headers: Vec<CmdHeader>,
    /// The stores into the port's registers, in the order to perform them.
    pub writes: Vec<RegWrite>,
}

/// The stores that set up port `idx`: the command list at `cl` and the
/// received-FIS area at `fb`, nothing active, all errors and pending
/// interrupts cleared, and the port's interrupt causes unmasked.
pub open spec fn setup_writes(idx: nat, cl: u64, fb: u64) -> Seq<RegWrite> {
    seq![
        RegWrite { offset: port_reg(idx, 0x00) as usize, value: low_half(cl) },
        RegWrite { offset: port_reg(idx, 0x04) as usize, value: high_half(cl) },
        RegWrite { offset: port_reg(idx, 0x08) as usize, value: low_half(fb) },
        RegWrite { offset: port_reg(idx, 0x0C) as usize, value: high_half(fb) },
        RegWrite { offset: port_reg(idx, 0x34) as usize, value: 0 },
        RegWrite { offset: port_reg(idx, 0x30) as usize, value: 0x003F_F783 },
        RegWrite { offset: port_reg(idx, 0x10) as usize, value: 0xFFFF_FFFF },
        RegWrite { offset: port_reg(idx, 0x14) as usize, value: 0xC000_0007 },
    ]
}

/// Whether `port` and `setup` are what becomes of the pages `pages` when port
/// `idx` of an adapter with `max_commands` command slots is made of them: a
/// port with all its slots free, whose memory is those pages, a command list
/// in which the header of each slot points at the slot's command table, and
/// the stores that set the port up.
pub open spec fn port_made(
    idx: usize,
    max_commands: usize,
    pages: Seq<u64>,
    port: Port,
    setup: PortSetup,
) -> bool {
    &&& port.wf()
    &&& port.index() == idx
    &&& port.memory().max_commands() == max_commands
    &&& port.memory().cl_page() == pages[0]
    &&& port.memory().extra_pages() == pages.skip(1)
    &&& port.pool() == PoolState::fresh(max_commands as nat)
    &&& setup.headers.len() == max_commands
    &&& forall|i: int|
        0 <= i < setup.headers.len() ==> #[trigger] setup.headers[i] == (CmdHeader {
            flags: 0,
            prdtl: 0,
            prdbc: 0,
            ctba: port.memory().table_addr(i) as u64,
        })
    &&& setup.writes@ == setup_writes(
        idx as nat,
        port.memory().cl_page(),
        port.memory().rcvd_fis_addr() as u64,
    )
}

/// One SATA port.
#[derive(Debug)]
pub struct Port {
    index: usize,
    memory: PortMemory,
    pool: SlotPool,
}

impl Port {
    /// Index of the port on its adapter.
    pub closed spec fn index(&self) -> nat {
        self.index as nat
    }

    /// The memory of the port.
    pub closed spec fn memory(&self) -> PortMemory {
        self.memory
    }

    /// The pool of the port's command slots.
    pub closed spec fn pool(&self) -> PoolState {
        self.pool@
    }

    /// Number of command slots of the port.
    pub open spec fn max_commands(&self) -> nat {
        self.pool().capacity
    }

    /// The invariant of a port: the taken slots and the free permits add up to
    /// the number of slots, and the memory is laid out for that number.
    #[verifier::type_invariant]
    pub open spec fn wf(&self) -> bool {
        &&& self.index() < 32
        &&& self.memory().wf()
        &&& self.pool().wf()
        &&& self.memory().max_commands() == self.pool().capacity
    }

    /// Makes port `idx` of an adapter with `max_commands` command slots out of
    /// the pages allocated for it: the page of the command list first, then
    /// the extra pages of command tables.
    ///
    /// The port starts with all its slots free. What comes with it has to
    /// reach the hardware before the port is started: the command list, in
    /// which the header of each slot points at the slot's command table, and
    /// the stores that tell the port where its memory lies and which
    /// interrupts to raise.
    ///
    /// Fewer pages than the layout needs mean that an allocation failed.
    pub fn new(idx: usize, max_commands: usize, pages: Vec<u64>) -> (r: Result<
        (Port, PortSetup),
        DriverBindError,
    >)
        requires
            idx < MAX_PORTS,
            max_commands <= MAX_COMMANDS,
        ensures
            r == Err::<(Port, PortSetup), DriverBindError>(DriverBindError::OutOfMemory)
                <==> pages.len() < 1 + extra_pages_for(max_commands as int),
            r is Ok <==> pages.len() > 0 && pages_fit(
                max_commands as int,
                pages[0],
                pages@.skip(1),
            ),
            r matches Err(e) ==> e == DriverBindError::OutOfMemory || e
                == DriverBindError::BadMemory,
            r matches Ok(made) ==> port_made(idx, max_commands, pages@, made.0, made.1),
    {
        if pages.len() < 1 + table_pages_needed(max_commands) {
            return Err(DriverBindError::OutOfMemory);
        }
        let mut table_pages = pages;
        let cl_page = table_pages.remove(0);
        assert(table_pages@ =~= pages@.skip(1));
        let memory = match PortMemory::new(max_commands, cl_page, table_pages) {
            Some(memory) => memory,
            None => {
                return Err(DriverBindError::BadMemory);
            },
        };
        let mut headers: Vec<CmdHeader> = Vec::with_capacity(max_commands);
        let mut i: usize = 0;
        while i < max_commands
            invariant
                i <= max_commands,
                max_commands == memory.max_commands(),
                headers.len() == i,
                forall|k: int|
                    0 <= k < i ==> #[trigger] headers[k] == (CmdHeader {
                        flags: 0,
                        prdtl: 0,
                        prdbc: 0,
                        ctba: memory.table_addr(k) as u64,
                    }),
            decreases max_commands - i,
        {
            headers.push(CmdHeader::new(memory.table_phys(i)));
            i += 1;
        }
        let regs = PortRegs::new(idx);
        let cl = memory.command_list_phys();
        let fb = memory.rcvd_fis_phys();
        let mut writes: Vec<RegWrite> = Vec::with_capacity(8);
        writes.push(regs.write(REG_PxCLB, (cl % 0x1_0000_0000) as u32));
        writes.push(regs.write(REG_PxCLBU, (cl / 0x1_0000_0000) as u32));
        writes.push(regs.write(REG_PxFB, (fb % 0x1_0000_0000) as u32));
        writes.push(regs.write(REG_PxFBU, (fb / 0x1_0000_0000) as u32));
        writes.push(regs.write(REG_PxSACT, 0));
        writes.push(regs.write(REG_PxSERR, SERR_CLEAR_ALL));
        writes.push(regs.write(REG_PxIS, 0xFFFF_FFFF));
        writes.push(regs.write(REG_PxIE, PORT_INTERRUPTS));
        assert(writes@ =~= setup_writes(idx as nat, cl, fb));
        let pool = SlotPool::new(max_commands as u8);
        Ok((Port { index: idx, memory, pool }, PortSetup { headers, writes }))
    }

    /// The port's index.
    pub fn idx(&self) -> (r: usize)
        ensures
            r == self.index(),
            r < MAX_PORTS,
    {
        proof {
            use_type_invariant(self);
        }
        self.index
    }

    /// Number of command slots of the port.
    pub fn slots(&self) -> (r: u8)
        ensures
            r == self.max_commands(),
            r <= 32,
            self.wf(),
    {
        proof {
            use_type_invariant(self);
        }
        self.pool.capacity()
    }

    /// The mask of the slots that are taken.
    pub fn used_commands(&self) -> (r: u32)
        ensures
            r == self.pool().used,
            self.wf(),
    {
        proof {
            use_type_invariant(self);
        }
        self.pool.used()
    }

    /// Number of slots that are free.
    pub fn free_slots(&self) -> (r: u8)
        ensures
            r == self.pool().permits,
            self.wf(),
    {
        proof {
            use_type_invariant(self);
        }
        self.pool.permits()
    }

    /// The port's register block.
    pub fn regs(&self) -> (r: PortRegs)
        ensures
            r.index() == self.index(),
    {
        proof {
            use_type_invariant(self);
        }
        PortRegs::new(self.index)
    }

    /// The store that starts the port's command engine, given the value `cmd`
    /// read from the port's command register after the set-up stores: the
    /// value with Start and FIS-Receive-Enable set.
    pub fn start_engine(&self, cmd: u32) -> (w: RegWrite)
        ensures
            w.offset == port_reg(self.index(), 0x18),
            w.value == cmd | 0x11,
    {
        assert(cmd | 0x11 == cmd | 0x01 | 0x10) by (bit_vector);
        self.regs().write(REG_PxCMD, cmd | PxCMD_ST | PxCMD_FRE)
    }
}

/// The values read from a port's registers when it raised an interrupt.
#[derive(Clone, Copy, Debug, PartialEq, Eq, Structural)]
pub struct IrqRegs {
    /// Interrupt status.
    pub int_status: u32,
    /// Command issue: the slots whose commands the adapter has not finished.
    pub issued: u32,
    /// SATA active: the slots whose commands the device has not finished.
    pub active: u32,
    /// SATA error.
    pub error: u32,
}

/// What a port's interrupt asks for.
#[derive(Clone, Copy, Debug, PartialEq, Eq, Structural)]
pub struct IrqReport {
    /// The presence of a device changed.
    pub presence_change: bool,
    /// The device reported an error in its task file.
    pub task_file_error: bool,
    /// A device-to-host register FIS arrived in the received-FIS area.
    pub device_register_update: bool,
    /// A PIO setup FIS arrived in the received-FIS area.
    pub pio_setup_update: bool,
    /// The slots whose completion events are to be posted, once each.
    pub completed: u32,
    /// Those of the completed slots whose commands are still pending and are
    /// marked in the SATA error register.
    pub errored: u32,
    /// The slots that the device works on although nobody holds them.
    pub stray: u32,
    /// The store that acknowledges the interrupt.
    pub ack: RegWrite,
}

/// Whether the command of the taken slot `i` has ended: the adapter or the
/// device has finished it, or the error register marks it.
pub open spec fn slot_done(used: u32, regs: IrqRegs, i: nat) -> bool {
    has_bit(used, i) && (!has_bit(regs.issued, i) || !has_bit(regs.active, i) || has_bit(
        regs.error,
        i,
    ))
}

/// Whether the command of the taken slot `i` is still pending and the error
/// register marks it.
pub open spec fn slot_errored(used: u32, regs: IrqRegs, i: nat) -> bool {
    has_bit(used, i) && has_bit(regs.issued, i) && has_bit(regs.active, i) && has_bit(
        regs.error,
        i,
    )
}

/// Whether the device works on slot `i` although nobody holds it.
pub open spec fn slot_stray(used: u32, regs: IrqRegs, i: nat) -> bool {
    !has_bit(used, i) && has_bit(regs.active, i)
}

impl Port {
    /// Handles an interrupt of the port, given the values `regs` read from its
    /// registers.
    ///
    /// Whatever the cause of the interrupt, every taken slot whose command has
    /// ended gets its completion event posted. The interrupt is acknowledged by
    /// storing the status read back into the status register. Nothing is
    /// allocated, and no slot is taken or released.
    pub fn handle_irq(&self, regs: IrqRegs) -> (r: IrqReport)
        ensures
            r.presence_change == (regs.int_status & 0x8000_0000 != 0),
            r.task_file_error == (regs.int_status & 0x4000_0000 != 0),
            r.device_register_update == (regs.int_status & 0x0000_0001 != 0),
            r.pio_setup_update == (regs.int_status & 0x0000_0002 != 0),
            forall|i: nat|
                i < 32 ==> (#[trigger] has_bit(r.completed, i) <==> i < self.max_commands()
                    && slot_done(self.pool().used, regs, i)),
            forall|i: nat|
                i < 32 ==> (#[trigger] has_bit(r.errored, i) <==> i < self.max_commands()
                    && slot_errored(self.pool().used, regs, i)),
            forall|i: nat|
                i < 32 ==> (#[trigger] has_bit(r.stray, i) <==> i < self.max_commands()
                    && slot_stray(self.pool().used, regs, i)),
            r.ack == (RegWrite {
                offset: port_reg(self.index(), 0x10) as usize,
                value: regs.int_status,
            }),
    {
        let used_commands = self.used_commands();
        let max_commands = self.slots();
        let mut completed: u32 = 0;
        let mut errored: u32 = 0;
        let mut stray: u32 = 0;
        proof {
            crate::storage_ahci::slots::lemma_empty_mask(0);
        }
        let mut cmd: u8 = 0;
        while cmd < max_commands
            invariant
                cmd <= max_commands <= 32,
                forall|i: nat|
                    i < 32 ==> (#[trigger] has_bit(completed, i) <==> i < cmd && slot_done(
                        used_commands,
                        regs,
                        i,
                    )),
                forall|i: nat|
                    i < 32 ==> (#[trigger] has_bit(errored, i) <==> i < cmd && slot_errored(
                        used_commands,
                        regs,
                        i,
                    )),
                forall|i: nat|
                    i < 32 ==> (#[trigger] has_bit(stray, i) <==> i < cmd && slot_stray(
                        used_commands,
                        regs,
                        i,
                    )),
            decreases max_commands - cmd,
        {
            let mask = bit_of(cmd);
            if test_bit(used_commands, cmd) {
                if !test_bit(regs.issued, cmd) || !test_bit(regs.active, cmd) {
                    proof {
                        lemma_take_all(completed, cmd as nat);
                    }
                    completed = completed | mask;
                } else if test_bit(regs.error, cmd) {
                    proof {
                        lemma_take_all(completed, cmd as nat);
                        lemma_take_all(errored, cmd as nat);
                    }
                    completed = completed | mask;
                    errored = errored | mask;
                }
            } else if test_bit(regs.active, cmd) {
                proof {
                    lemma_take_all(stray, cmd as nat);
                }
                stray = stray | mask;
            }
            cmd += 1;
        }
        IrqReport {
            presence_change: regs.int_status & PxIS_CPDS != 0,
            task_file_error: regs.int_status & PxIS_TFES != 0,
            device_register_update: regs.int_status & PxIS_DHRS != 0,
            pio_setup_update: regs.int_status & PxIS_PSS != 0,
            completed,
            errored,
            stray,
            ack: self.regs().write(REG_PxIS, regs.int_status),
        }
    }
}

/// Setting bit `a` of a mask sets that bit and leaves every other bit as it
/// was.
proof fn lemma_take_all(mask: u32, a: nat)
    requires
        a < 32,
    ensures
        forall|j: nat| j < 32 ==> (#[trigger] has_bit(mask | bit(a), j) <==> has_bit(mask, j) || j == a),
{
    assert forall|j: nat| j < 32 implies (#[trigger] has_bit(mask | bit(a), j) <==> has_bit(mask, j)
        || j == a) by {
        lemma_take_bit(mask, a, j);
    }
}

/// What a scan of a port found.
#[derive(Clone, Copy, Debug, PartialEq, Eq, Structural)]
pub enum Detection {
    /// No device is ready to be asked: the device is busy or has data
    /// pending, or the link is not up.
    NotReady,
    /// An ATA disk.
    Ata,
    /// An ATAPI device.
    Atapi,
    /// A device with a signature that the driver does not know. The port is
    /// left as it is.
    Unknown(u32),
}

impl Detection {
    /// The command that identifies the device found, if one is to be issued.
    pub open spec fn command(self) -> Option<u8> {
        match self {
            Detection::Ata => Some(0xECu8),
            Detection::Atapi => Some(0xA1u8),
            _ => None,
        }
    }

    /// The command to issue to identify the device found: IDENTIFY for a
    /// disk, IDENTIFY PACKET for an ATAPI device, none otherwise.
    pub fn identify_command(&self) -> (r: Option<u8>)
        ensures
            r == self.command(),
    {
        match self {
            Detection::Ata => Some(ATA_IDENTIFY),
            Detection::Atapi => Some(ATA_IDENTIFY_PACKET),
            _ => None,
        }
    }
}

/// Whether a device is ready to be asked what it is: neither busy nor with
/// data pending, and with the link established.
pub open spec fn device_ready(tfd: u32, ssts: u32) -> bool {
    tfd & 0x88 == 0 && ssts & 0xF == 3
}

/// What a scan finds, given the task file data `tfd`, the SATA status `ssts`
/// and the signature `sig` of a port.
pub open spec fn detect(tfd: u32, ssts: u32, sig: u32) -> Detection {
    if !device_ready(tfd, ssts) {
        Detection::NotReady
    } else if sig == 0x0000_0101 {
        Detection::Ata
    } else if sig == 0xEB14_0101 {
        Detection::Atapi
    } else {
        Detection::Unknown(sig)
    }
}

impl Port {
    /// Looks at the port for a device, given the values read from its task
    /// file data, SATA status and signature registers. The signature counts
    /// only where a device is ready.
    ///
    /// A command is issued for a ready device with the signature of a disk
    /// (IDENTIFY) or of an ATAPI device (IDENTIFY PACKET), and for nothing
    /// else.
    pub fn update_connection(&self, tfd: u32, ssts: u32, sig: u32) -> (r: Detection)
        ensures
            r == detect(tfd, ssts, sig),
            r.command() == Some(0xECu8) <==> device_ready(tfd, ssts) && sig == 0x0000_0101,
            r.command() == Some(0xA1u8) <==> device_ready(tfd, ssts) && sig == 0xEB14_0101,
            r.command() is None <==> !device_ready(tfd, ssts) || (sig != 0x0000_0101 && sig
                != 0xEB14_0101),
    {
        assert(tfd & 0x88 == tfd & (0x80u32 | 0x08u32)) by (bit_vector);
        assert((ssts & 0xF) >> 0u32 == ssts & 0xF) by (bit_vector);
        if tfd & (PxTFD_STS_BSY | PxTFD_STS_DRQ) != 0 {
            return Detection::NotReady;
        }
        if (ssts & PxSSTS_DET) >> PxSSTS_DET_ofs != SSTS_DET_ESTABLISHED {
            return Detection::NotReady;
        }
        if sig == SIG_ATA {
            Detection::Ata
        } else if sig == SIG_ATAPI {
            Detection::Atapi
        } else {
            Detection::Unknown(sig)
        }
    }
}

/// The data of a command and the direction in which it moves.
#[derive(Debug)]
pub enum DataPtr<'a> {
    /// Data that goes to the device.
    Send(&'a DmaBuffer),
    /// Room for data that comes from the device.
    Recv(&'a DmaBuffer),
}

impl<'a> DataPtr<'a> {
    /// The buffer of the transfer.
    pub open spec fn buffer(&self) -> &'a DmaBuffer {
        match *self {
            DataPtr::Send(p) => p,
            DataPtr::Recv(p) => p,
        }
    }

    /// The buffer of the transfer.
    pub fn as_slice(&self) -> (r: &'a DmaBuffer)
        ensures
            r == self.buffer(),
    {
        match *self {
            DataPtr::Send(p) => p,
            DataPtr::Recv(p) => p,
        }
    }

    /// Whether the data goes to the device.
    pub fn is_send(&self) -> (r: bool)
        ensures
            r == (*self is Send),
    {
        match *self {
            DataPtr::Send(_) => true,
            DataPtr::Recv(_) => false,
        }
    }
}

/// A command slot in the hands of the caller that took it.
///
/// Its holder alone may write the slot's command table and header. The slot
/// stays taken until it is handed back to its port.
#[derive(Debug)]
pub struct CommandSlot {
    idx: u8,
    port: usize,
    table: TableRef,
}

impl CommandSlot {
    /// Index of the slot on its port.
    pub closed spec fn index(&self) -> nat {
        self.idx as nat
    }

    /// Index of the port that the slot belongs to.
    pub closed spec fn port(&self) -> nat {
        self.port as nat
    }

    /// The memory that holds the slot's command table.
    pub closed spec fn table(&self) -> TableRef {
        self.table
    }

    /// The invariant of the type: the slot and its port exist.
    #[verifier::type_invariant]
    pub open spec fn wf(&self) -> bool {
        self.index() < 32 && self.port() < 32
    }

    /// Index of the slot on its port.
    pub fn idx(&self) -> (r: u8)
        ensures
            r == self.index(),
            r < 32,
    {
        proof {
            use_type_invariant(self);
        }
        self.idx
    }

    /// The memory that holds the slot's command table.
    pub fn table_ref(&self) -> (r: TableRef)
        ensures
            r == self.table(),
    {
        self.table
    }

    /// The stores that issue the slot's command: the slot's bit into the SATA
    /// active register, then into the command issue register. After them the
    /// slot's memory and the buffers of the command belong to the adapter
    /// until the command has ended.
    pub fn start(&self) -> (r: Vec<RegWrite>)
        ensures
            r@ == seq![
                RegWrite { offset: port_reg(self.port(), 0x34) as usize, value: bit(self.index()) },
                RegWrite { offset: port_reg(self.port(), 0x38) as usize, value: bit(self.index()) },
            ],
    {
        proof {
            use_type_invariant(self);
        }
        let mask = bit_of(self.idx);
        let regs = PortRegs::new(self.port);
        let mut writes: Vec<RegWrite> = Vec::with_capacity(2);
        writes.push(regs.write(REG_PxSACT, mask));
        writes.push(regs.write(REG_PxCI, mask));
        assert(writes@ =~= seq![
            RegWrite { offset: port_reg(self.port(), 0x34) as usize, value: bit(self.index()) },
            RegWrite { offset: port_reg(self.port(), 0x38) as usize, value: bit(self.index()) },
        ]);
        writes
    }

    /// Judges the outcome of the slot's command once its completion event
    /// was posted, given the values read from the command issue register
    /// (`active`) and the SATA error register (`error`).
    ///
    /// The command has succeeded when neither register marks the slot. It has
    /// failed when the error register marks it. Woken with the command still
    /// issued and no error, the waiter was woken for nothing.
    pub fn wait(&self, active: u32, error: u32) -> (r: Result<(), AhciError>)
        ensures
            r is Ok <==> !has_bit(active, self.index()) && !has_bit(error, self.index()),
            r == Err::<(), AhciError>(AhciError::DeviceError) <==> has_bit(error, self.index()),
            r == Err::<(), AhciError>(AhciError::SpuriousWake) <==> has_bit(active, self.index())
                && !has_bit(error, self.index()),
    {
        proof {
            use_type_invariant(self);
        }
        if test_bit(error, self.idx) {
            Err(AhciError::DeviceError)
        } else if test_bit(active, self.idx) {
            Err(AhciError::SpuriousWake)
        } else {
            Ok(())
        }
    }
}

/// A command laid out for its slot: what to put into the slot's command table
/// and header before the command is issued.
#[derive(Debug)]
pub struct Command {
    /// The slot that the command occupies.
    pub slot: CommandSlot,
    /// The command FIS. It goes to the start of the command table.
    pub cmd_fis: Vec<u8>,
    /// The ATAPI command. It goes to the ATAPI area of the command table.
    pub atapi_cmd: Vec<u8>,
    /// The scatter-gather list. It goes to the command table's list.
    pub prdt: Vec<PrdtEntry>,
    /// Number of entries of the scatter-gather list, for the slot's header.
    pub prdtl: u16,
    /// Length of the command FIS in 32-bit words and direction of the
    /// transfer, for the slot's header.
    pub flags: u16,
}

/// Whether `c` is the command with the command FIS `cmd`, the ATAPI command
/// `pkt` and the data `data` laid out for the slot of port `port` that is next
/// to be handed out.
pub open spec fn lays_out(port: Port, c: Command, cmd: Seq<u8>, pkt: Seq<u8>, data: DataPtr) -> bool {
    &&& c.slot.port() == port.index()
    &&& port.pool().next_free(c.slot.index())
    &&& c.slot.table() == table_ref(port.max_commands() as int, c.slot.index() as int)
    &&& c.cmd_fis@ == cmd
    &&& c.atapi_cmd@ == pkt
    &&& c.prdt@ == prdt_of(data.buffer()@.segments())
    &&& c.prdtl == data.buffer()@.segments().len()
    &&& c.flags == cmd.len() / 4 + if data is Send {
        0x40int
    } else {
        0int
    }
}

/// What becomes of a port, and what comes back, when the command with the
/// command FIS `cmd`, the ATAPI command `pkt` and the data `data` is
/// submitted to it.
///
/// The buffer is refused when one of its segments is not aligned, and when it
/// has more segments than a command table has entries. Otherwise the command
/// takes the lowest free slot. With no slot free nothing is taken and nothing
/// comes back: the caller has to wait for a release. A port that hands out no
/// command is left as it was.
pub open spec fn submits(
    before: Port,
    after: Port,
    cmd: Seq<u8>,
    pkt: Seq<u8>,
    data: DataPtr,
    r: Result<Option<Command>, AhciError>,
) -> bool {
    let segs = data.buffer()@.segments();
    &&& after.index() == before.index()
    &&& after.memory() == before.memory()
    &&& after.wf()
    &&& match r {
        Err(e) => {
            &&& after.pool() == before.pool()
            &&& !all_aligned(segs) || segs.len() > 8
            &&& e == if all_aligned(segs) {
                AhciError::TooManySegments
            } else {
                AhciError::UnalignedBuffer
            }
        },
        Ok(None) => {
            &&& after.pool() == before.pool()
            &&& all_aligned(segs)
            &&& segs.len() <= 8
            &&& before.pool().permits == 0
        },
        Ok(Some(c)) => {
            &&& all_aligned(segs)
            &&& segs.len() <= 8
            &&& before.pool().permits > 0
            &&& lays_out(before, c, cmd, pkt, data)
            &&& after.pool() == before.pool().take(c.slot.index())
        },
    }
}

/// Copies `src` into a vector of its own.
fn copy_bytes(src: &[u8]) -> (r: Vec<u8>)
    ensures
        r@ == src@,
{
    let mut out: Vec<u8> = Vec::with_capacity(src.len());
    let mut i: usize = 0;
    while i < src.len()
        invariant
            i <= src.len(),
            out@ == src@.take(i as int),
        decreases src.len() - i,
    {
        out.push(src[i]);
        proof {
            assert(src@.take(i + 1) =~= src@.take(i as int).push(src@[i as int]));
        }
        i += 1;
    }
    proof {
        assert(src@.take(src.len() as int) =~= src@);
    }
    out
}

impl Port {
    /// Takes the lowest free slot of the port. `None`, with the port
    /// unchanged, when every slot is taken: the caller then has to wait for a
    /// release.
    ///
    /// The slot handed out is one that no other holder has, and it stays
    /// taken until it is released.
    pub fn get_command_slot(&mut self) -> (r: Option<CommandSlot>)
        ensures
            final(self).wf(),
            final(self).index() == old(self).index(),
            final(self).memory() == old(self).memory(),
            r is Some <==> old(self).pool().permits > 0,
            match r {
                Some(slot) => {
                    &&& slot.port() == old(self).index()
                    &&& old(self).pool().next_free(slot.index())
                    &&& !old(self).pool().in_use(slot.index())
                    &&& slot.table() == table_ref(
                        old(self).max_commands() as int,
                        slot.index() as int,
                    )
                    &&& final(self).pool() == old(self).pool().take(slot.index())
                    &&& final(self).pool().in_use(slot.index())
                },
                None => final(self).pool() == old(self).pool(),
            },
    {
        proof {
            use_type_invariant(&*self);
        }
        let ghost before = self.pool@;
        match self.pool.acquire() {
            Some(avail) => {
                proof {
                    crate::storage_ahci::slots::lemma_take_wf(before, avail as nat);
                }
                let table = cmdidx_to_ref(self.memory.slots(), avail as usize);
                Some(CommandSlot { idx: avail, port: self.index, table })
            },
            None => None,
        }
    }

    /// Whether `slot` is one that this port handed out and that is still
    /// taken.
    pub fn holds(&self, slot: &CommandSlot) -> (r: bool)
        ensures
            r == (slot.port() == self.index() && self.pool().in_use(slot.index())),
    {
        slot.port == self.index && test_bit(self.pool.used(), slot.idx())
    }

    /// Takes `slot` back, given the value `active` read from the command
    /// issue register.
    ///
    /// A slot that the adapter still works on is not released: it stays taken,
    /// so that nobody else writes its memory.
    pub fn release_slot(&mut self, slot: CommandSlot, active: u32) -> (r: Result<(), AhciError>)
        requires
            slot.port() == old(self).index(),
            old(self).pool().in_use(slot.index()),
        ensures
            final(self).wf(),
            final(self).index() == old(self).index(),
            final(self).memory() == old(self).memory(),
            r is Err <==> has_bit(active, slot.index()),
            match r {
                Ok(_) => final(self).pool() == old(self).pool().give_back(slot.index()),
                Err(e) => e == AhciError::SlotStillActive && final(self).pool() == old(
                    self,
                ).pool(),
            },
    {
        proof {
            use_type_invariant(&*self);
        }
        let idx = slot.idx();
        if test_bit(active, idx) {
            return Err(AhciError::SlotStillActive);
        }
        proof {
            crate::storage_ahci::slots::lemma_give_back_wf(self.pool@, idx as nat);
        }
        self.pool.release(idx);
        Ok(())
    }

    /// Lays out a command and takes a slot for it.
    ///
    /// `cmd` is the command FIS, `pkt` the ATAPI command of a packet command
    /// (empty otherwise), `data` the buffer of the transfer.
    pub fn do_fis(&mut self, cmd: &[u8], pkt: &[u8], data: &DataPtr) -> (r: Result<
        Option<Command>,
        AhciError,
    >)
        requires
            cmd.len() <= CMD_FIS_SIZE,
            pkt.len() <= ATAPI_CMD_SIZE,
        ensures
            submits(*old(self), *final(self), cmd@, pkt@, *data, r),
    {
        proof {
            use_type_invariant(&*self);
        }
        let prdt = match data.as_slice().build_prdt() {
            Ok(entries) => entries,
            Err(e) => {
                return Err(e);
            },
        };
        if prdt.len() > PRDT_ENTRIES {
            return Err(AhciError::TooManySegments);
        }
        let slot = match self.get_command_slot() {
            Some(slot) => slot,
            None => {
                return Ok(None);
            },
        };
        let flags: u16 = (cmd.len() / 4) as u16 + if data.is_send() {
            CMD_FLAG_WRITE
        } else {
            0
        };
        Ok(
            Some(
                Command {
                    slot,
                    cmd_fis: copy_bytes(cmd),
                    atapi_cmd: copy_bytes(pkt),
                    prdtl: prdt.len() as u16,
                    prdt,
                    flags,
                },
            ),
        )
    }

    /// Submits the LBA28 command `cmd` for `n_sectors` sectors from `lba` on
    /// of disk `disk`, with the buffer `data`.
    pub fn request_ata_lba28(
        &mut self,
        disk: u8,
        cmd: u8,
        n_sectors: u8,
        lba: u32,
        data: &DataPtr,
    ) -> (r: Result<Option<Command>, AhciError>)
        requires
            lba < LBA28_LIMIT,
        ensures
            submits(
                *old(self),
                *final(self),
                lba28_fis(disk, cmd, n_sectors, lba).wire(),
                Seq::empty(),
                *data,
                r,
            ),
    {
        let cmd_data = FisHost2DevReg::new_lba28(disk, cmd, n_sectors, lba);
        let bytes = cmd_data.as_bytes();
        let empty: Vec<u8> = Vec::new();
        self.do_fis(bytes.as_slice(), empty.as_slice(), data)
    }

    /// Submits the identify command `cmd`, whose answer of 512 bytes the
    /// device puts into `data`.
    pub fn request_identify(&mut self, cmd: u8, data: &DmaBuffer) -> (r: Result<
        Option<Command>,
        AhciError,
    >)
        ensures
            submits(
                *old(self),
                *final(self),
                lba28_fis(0, cmd, 0, 0).wire(),
                Seq::empty(),
                DataPtr::Recv(data),
                r,
            ),
    {
        self.request_ata_lba28(0, cmd, 0, 0, &DataPtr::Recv(data))
    }
}

} // verus!
