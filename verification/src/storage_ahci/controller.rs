//! The adapter as a whole: what its capabilities say, which ports it has, and
//! which of them an interrupt is for.

use vstd::prelude::*;
use crate::device_manager::DriverBindError;
use crate::storage_ahci::hw::{
    bit, bit_of, has_bit, port_reg, test_bit, PortRegs, RegWrite, CAP_NCS, CAP_NCS_ofs, CAP_S64A,
    GHC_AE, GHC_IE, MAX_PORTS, PxCMD_CR, PxCMD_FR, PxCMD_FRE, PxCMD_ST, REG_GHC, REG_IS,
    REG_PxCMD,
};
use crate::storage_ahci::layout::{extra_pages_for, pages_fit};
use crate::storage_ahci::port::{port_made, Port, PortSetup};
use crate::storage_ahci::slots::lemma_take_bit;

verus! {

/// What all ports of an adapter share.
#[derive(Clone, Copy, Debug, PartialEq, Eq, Structural)]
pub struct ControllerInner {
    /// Number of command slots of each port.
    pub max_commands: u8,
    /// Whether the adapter can address 64 bits.
    pub supports_64bit: bool,
}

/// Number of command slots that the capabilities `cap` announce: one more
/// than the five-bit field at bit 8.
pub open spec fn slots_of(cap: u32) -> int {
    (cap / 0x100) % 32 + 1
}

/// Whether a port with the command register value `cmd` has to be told to go
/// idle: it is started, or one of its engines runs or is enabled.
pub open spec fn port_active(cmd: u32) -> bool {
    cmd & 0xC011 != 0
}

/// Whether an engine of a port with the command register value `cmd` is
/// still running.
pub open spec fn port_running(cmd: u32) -> bool {
    cmd & 0xC000 != 0
}

impl ControllerInner {
    /// Reads the shared state out of the value of the capabilities register.
    pub fn new(capabilities: u32) -> (r: ControllerInner)
        ensures
            r.max_commands == slots_of(capabilities),
            1 <= r.max_commands <= 32,
            r.supports_64bit == (capabilities >= 0x8000_0000),
    {
        assert(((capabilities & 0x1F00) >> 8u32) == (capabilities / 0x100) % 32) by (bit_vector);
        assert((capabilities & 0x8000_0000 != 0) == (capabilities >= 0x8000_0000))
            by (bit_vector);
        ControllerInner {
            supports_64bit: capabilities & CAP_S64A != 0,
            max_commands: (((capabilities & CAP_NCS) >> CAP_NCS_ofs) + 1) as u8,
        }
    }
}

/// An AHCI controller.
#[derive(Debug)]
pub struct Controller {
    /// What all ports share.
    pub inner: ControllerInner,
    /// The ports that the adapter implements, one bit for each.
    pub ports_implemented: u32,
    /// The ports set up so far, in the order of their indices.
    pub ports: Vec<Port>,
}

impl Controller {
    /// The invariant of a controller: its ports are implemented ones, in the
    /// order of their indices, each with the adapter's number of slots.
    pub open spec fn wf(&self) -> bool {
        &&& 1 <= self.inner.max_commands <= 32
        &&& forall|k: int|
            0 <= k < self.ports.len() ==> {
                &&& (#[trigger] self.ports[k]).wf()
                &&& has_bit(self.ports_implemented, self.ports[k].index())
                &&& self.ports[k].max_commands() == self.inner.max_commands
            }
        &&& forall|k: int, l: int|
            0 <= k < l < self.ports.len() ==> (#[trigger] self.ports[k]).index() < (
            #[trigger] self.ports[l]).index()
    }

    /// Whether the controller has a port with index `i`.
    pub open spec fn has_port(&self, i: nat) -> bool {
        exists|k: int| 0 <= k < self.ports.len() && (#[trigger] self.ports[k]).index() == i
    }

    /// The store that switches the adapter to AHCI mode. It comes before
    /// anything else.
    pub fn enable_ahci() -> (w: RegWrite)
        ensures
            w == (RegWrite { offset: 0x04, value: 0x8000_0000 }),
    {
        RegWrite { offset: REG_GHC, value: GHC_AE }
    }

    /// Whether the adapter with the ports-implemented value
    /// `ports_implemented` has port `port_idx`.
    pub fn is_implemented(ports_implemented: u32, port_idx: usize) -> (r: bool)
        ensures
            r == (port_idx < 32 && has_bit(ports_implemented, port_idx as nat)),
    {
        port_idx < MAX_PORTS && test_bit(ports_implemented, port_idx as u8)
    }

    /// The store that tells port `port_idx` to go idle, given the value `cmd`
    /// read from its command register: the command register is cleared where
    /// the port is started or one of its engines runs or is enabled. An idle
    /// port is left alone.
    pub fn idle_request(port_idx: usize, cmd: u32) -> (r: Option<RegWrite>)
        requires
            port_idx < MAX_PORTS,
        ensures
            r is Some <==> port_active(cmd),
            r matches Some(w) ==> w == (RegWrite {
                offset: port_reg(port_idx as nat, 0x18) as usize,
                value: 0,
            }),
    {
        assert(cmd & 0xC011 == cmd & (0x0001u32 | 0x8000u32 | 0x0010u32 | 0x4000u32))
            by (bit_vector);
        if cmd & (PxCMD_ST | PxCMD_CR | PxCMD_FRE | PxCMD_FR) != 0 {
            Some(PortRegs::new(port_idx).write(REG_PxCMD, 0))
        } else {
            None
        }
    }

    /// Whether an engine of a port with the command register value `cmd` is
    /// still running, so that the port cannot be set up.
    pub fn engine_running(cmd: u32) -> (r: bool)
        ensures
            r == port_running(cmd),
    {
        assert(cmd & 0xC000 == cmd & (0x8000u32 | 0x4000u32)) by (bit_vector);
        cmd & (PxCMD_CR | PxCMD_FR) != 0
    }

    /// The controller of an adapter with the capabilities `capabilities` and
    /// the ports `ports_implemented`, before any of its ports is set up.
    pub fn new(capabilities: u32, ports_implemented: u32) -> (r: Controller)
        ensures
            r.wf(),
            r.inner.max_commands == slots_of(capabilities),
            r.inner.supports_64bit == (capabilities >= 0x8000_0000),
            r.ports_implemented == ports_implemented,
            r.ports@ == Seq::<Port>::empty(),
    {
        Controller { inner: ControllerInner::new(capabilities), ports_implemented, ports: Vec::new() }
    }

    /// Whether port `port_idx` is the next to set up: the adapter implements
    /// it, and it comes after the ports set up so far.
    pub open spec fn accepts(&self, port_idx: nat) -> bool {
        &&& port_idx < 32
        &&& has_bit(self.ports_implemented, port_idx)
        &&& forall|k: int| 0 <= k < self.ports.len() ==> (#[trigger] self.ports[k]).index() < port_idx
    }

    /// Whether port `port_idx` can be set up next.
    pub fn wants_port(&self, port_idx: usize) -> (r: bool)
        requires
            self.wf(),
        ensures
            r == self.accepts(port_idx as nat),
    {
        if !Self::is_implemented(self.ports_implemented, port_idx) {
            return false;
        }
        let n = self.ports.len();
        if n == 0 {
            return true;
        }
        let last = self.ports[n - 1].idx();
        if last < port_idx {
            assert forall|k: int| 0 <= k < self.ports.len() implies (#[trigger] self.ports[k]).index()
                < port_idx by {
                if k < n - 1 {
                    assert(self.ports[k].index() < self.ports[n - 1].index());
                }
            }
            true
        } else {
            false
        }
    }

    /// Sets up port `port_idx`, given the value `cmd` read from its command
    /// register and the pages allocated for it: the page of the command list
    /// first, then the extra pages of command tables.
    ///
    /// A port of which an engine still runs is not touched. Fewer pages than
    /// the layout needs mean that an allocation failed. Where the port cannot
    /// be set up the controller stays as it was.
    pub fn add_port(&mut self, port_idx: usize, cmd: u32, pages: Vec<u64>) -> (r: Result<
        PortSetup,
        DriverBindError,
    >)
        requires
            old(self).wf(),
            old(self).accepts(port_idx as nat),
        ensures
            final(self).wf(),
            final(self).inner == old(self).inner,
            final(self).ports_implemented == old(self).ports_implemented,
            r == Err::<PortSetup, DriverBindError>(DriverBindError::DeviceBusy) <==> port_running(
                cmd,
            ),
            r == Err::<PortSetup, DriverBindError>(DriverBindError::OutOfMemory) <==> !port_running(
                cmd,
            ) && pages.len() < 1 + extra_pages_for(old(self).inner.max_commands as int),
            r is Ok <==> !port_running(cmd) && pages.len() > 0 && pages_fit(
                old(self).inner.max_commands as int,
                pages[0],
                pages@.skip(1),
            ),
            r matches Err(e) ==> final(self).ports@ == old(self).ports@ && (e
                == DriverBindError::DeviceBusy || e == DriverBindError::OutOfMemory || e
                == DriverBindError::BadMemory),
            r matches Ok(setup) ==> {
                &&& final(self).ports@.len() == old(self).ports@.len() + 1
                &&& final(self).ports@.drop_last() == old(self).ports@
                &&& port_made(
                    port_idx,
                    old(self).inner.max_commands as usize,
                    pages@,
                    final(self).ports@.last(),
                    setup,
                )
            },
    {
        if Self::engine_running(cmd) {
            return Err(DriverBindError::DeviceBusy);
        }
        let (port, setup) = match Port::new(port_idx, self.inner.max_commands as usize, pages) {
            Ok(made) => made,
            Err(e) => {
                return Err(e);
            },
        };
        self.ports.push(port);
        proof {
            assert(final(self).ports@.drop_last() =~= old(self).ports@);
        }
        Ok(setup)
    }

    /// The stores that switch the adapter's interrupts on once all ports are
    /// set up: every pending interrupt is cleared, then interrupts are
    /// enabled.
    pub fn enable_interrupts(&self) -> (r: Vec<RegWrite>)
        ensures
            r@ == seq![
                RegWrite { offset: 0x08, value: 0xFFFF_FFFF },
                RegWrite { offset: 0x04, value: 0x8000_0002 },
            ],
    {
        assert(0x8000_0002u32 == 0x8000_0000u32 | 0x0000_0002u32) by (bit_vector);
        let mut writes: Vec<RegWrite> = Vec::with_capacity(2);
        writes.push(RegWrite { offset: REG_IS, value: 0xFFFF_FFFF });
        writes.push(RegWrite { offset: REG_GHC, value: GHC_AE | GHC_IE });
        assert(writes@ =~= seq![
            RegWrite { offset: 0x08, value: 0xFFFF_FFFF },
            RegWrite { offset: 0x04, value: 0x8000_0002 },
        ]);
        writes
    }

    /// Finds the ports that an interrupt is for, given the value `root_is`
    /// read from the adapter's interrupt status register: the ports of the
    /// controller whose bit is set. Each of them has to handle its interrupt.
    /// The interrupt was one of this adapter exactly when there is such a
    /// port, that is when the result is not zero.
    pub fn handle_irq(&self, root_is: u32) -> (r: u32)
        ensures
            forall|i: nat|
                i < 32 ==> (#[trigger] has_bit(r, i) <==> has_bit(root_is, i) && self.has_port(i)),
            r != 0 <==> exists|i: nat| i < 32 && has_bit(root_is, i) && self.has_port(i),
    {
        let mut pending: u32 = 0;
        proof {
            crate::storage_ahci::slots::lemma_empty_mask(0);
        }
        let mut k: usize = 0;
        while k < self.ports.len()
            invariant
                k <= self.ports.len(),
                forall|i: nat|
                    i < 32 ==> (#[trigger] has_bit(pending, i) <==> has_bit(root_is, i) && exists|
                        l: int,
                    | 0 <= l < k && (#[trigger] self.ports[l]).index() == i),
            decreases self.ports.len() - k,
        {
            let index = self.ports[k].idx() as u8;
            if test_bit(root_is, index) {
                proof {
                    assert forall|j: nat| j < 32 implies (#[trigger] has_bit(pending | bit(index as nat), j)
                        <==> has_bit(pending, j) || j == index) by {
                        lemma_take_bit(pending, index as nat, j);
                    }
                }
                pending = pending | bit_of(index);
            }
            k += 1;
        }
        proof {
            crate::storage_ahci::slots::lemma_empty_mask(pending);
            if pending != 0 {
                let i = choose|i: nat| i < 32 && has_bit(pending, i);
                assert(has_bit(root_is, i) && self.has_port(i));
            }
            if exists|i: nat| i < 32 && has_bit(root_is, i) && self.has_port(i) {
                let i = choose|i: nat| i < 32 && has_bit(root_is, i) && self.has_port(i);
                assert(has_bit(pending, i));
            }
        }
        pending
    }
}

} // verus!
