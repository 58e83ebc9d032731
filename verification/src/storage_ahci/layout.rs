//! Layout of a port's DMA memory.
//!
//! Each port owns one page that starts with the command list (one 32-byte
//! header per slot) and ends with the 256-byte received-FIS area. The space
//! between the two holds as many whole 256-byte command tables as fit. Slots
//! beyond those have their tables in extra pages, sixteen to a page.

use vstd::prelude::*;
use crate::storage_ahci::hw::PAGE_SIZE;

verus! {

/// Size in bytes of one command header.
pub const CMD_HEADER_SIZE: usize = 32;

/// Size in bytes of one command table.
pub const CMD_TABLE_SIZE: usize = 0x100;

/// Size in bytes of the command FIS area at the start of a command table.
pub const CMD_FIS_SIZE: usize = 64;

/// Size in bytes of the ATAPI command area of a command table.
pub const ATAPI_CMD_SIZE: usize = 16;

/// Number of scatter-gather entries of a command table: what is left of the
/// table's 256 bytes after the 128 bytes before the list, at 16 bytes an entry.
pub const PRDT_ENTRIES: usize = 8;

/// Size in bytes of the received-FIS area.
pub const RCVD_FIS_SIZE: usize = 0x100;

/// Largest number of command slots a port can have.
pub const MAX_COMMANDS: usize = 32;

/// Largest number of slots for which every command table fits beside the
/// command list: a slot takes a header and a table there, and the received-FIS
/// area takes the page's last 256 bytes.
pub const MAX_COMMANDS_FOR_SHARE: usize = 13;

/// Number of command tables in one extra page.
pub const CMDS_PER_PAGE: usize = 16;

/// Largest number of extra pages a port can hold.
pub const MAX_TABLE_PAGES: usize = 4;

/// The memory that holds one slot's command table.
#[derive(Clone, Copy, Debug, PartialEq, Eq, Structural)]
pub enum TableRef {
    /// Table `index` of those that follow the command list in its page.
    Shared { index: usize },
    /// Table `index` of extra page `page`.
    Extra { page: usize, index: usize },
}

/// Bytes taken by the command list of a port with `max_commands` slots.
pub open spec fn command_list_size(max_commands: int) -> int {
    max_commands * 32
}

/// Number of whole command tables that fit between the command list and the
/// received-FIS area.
pub open spec fn shared_tables(max_commands: int) -> int
    recommends
        0 <= max_commands <= 32,
{
    (0x1000 - command_list_size(max_commands)) / 0x100 - 1
}

/// Number of extra pages that a port with `max_commands` slots needs.
pub open spec fn extra_pages_for(max_commands: int) -> int
    recommends
        0 <= max_commands <= 32,
{
    if max_commands <= shared_tables(max_commands) {
        0
    } else {
        (max_commands - shared_tables(max_commands) + 15) / 16
    }
}

/// The memory that holds the command table of slot `i`.
pub open spec fn table_ref(max_commands: int, i: int) -> TableRef
    recommends
        0 <= i < max_commands <= 32,
{
    let n = shared_tables(max_commands);
    if i < n {
        TableRef::Shared { index: i as usize }
    } else {
        TableRef::Extra { page: ((i - n) / 16) as usize, index: ((i - n) % 16) as usize }
    }
}

/// Whether `r` is the table of some slot of a port with `max_commands` slots.
pub open spec fn table_ref_in_use(max_commands: int, r: TableRef) -> bool {
    let n = shared_tables(max_commands);
    match r {
        TableRef::Shared { index } => index < n && index < max_commands,
        TableRef::Extra { page, index } => index < 16 && n + page * 16 + index < max_commands,
    }
}

/// The slot whose command table lies at `r`.
pub open spec fn slot_of(max_commands: int, r: TableRef) -> int {
    match r {
        TableRef::Shared { index } => index as int,
        TableRef::Extra { page, index } => shared_tables(max_commands) + page * 16 + index,
    }
}

/// Byte offset of the table at `r` from the start of the page that holds it.
pub open spec fn table_offset(max_commands: int, r: TableRef) -> int {
    match r {
        TableRef::Shared { index } => command_list_size(max_commands) + index * 0x100,
        TableRef::Extra { page, index } => index * 0x100,
    }
}

/// Whether all command tables of a port with `max_commands` slots lie in the
/// command list's page.
pub fn shares_page(max_commands: usize) -> (r: bool)
    requires
        max_commands <= MAX_COMMANDS,
    ensures
        r == (max_commands <= shared_tables(max_commands as int)),
        r == (extra_pages_for(max_commands as int) == 0),
        r == (max_commands <= MAX_COMMANDS_FOR_SHARE),
{
    max_commands <= MAX_COMMANDS_FOR_SHARE
}

/// Number of extra pages to allocate for a port with `max_commands` slots.
pub fn table_pages_needed(max_commands: usize) -> (r: usize)
    requires
        max_commands <= MAX_COMMANDS,
    ensures
        r == extra_pages_for(max_commands as int),
        r < MAX_TABLE_PAGES,
{
    if shares_page(max_commands) {
        0
    } else {
        let n_shared = (PAGE_SIZE - max_commands * CMD_HEADER_SIZE) / CMD_TABLE_SIZE - 1;
        (max_commands - n_shared + CMDS_PER_PAGE - 1) / CMDS_PER_PAGE
    }
}

/// Finds the memory that holds the command table of slot `i`.
pub fn cmdidx_to_ref(max_commands: usize, i: usize) -> (r: TableRef)
    requires
        i < max_commands <= MAX_COMMANDS,
    ensures
        r == table_ref(max_commands as int, i as int),
        table_ref_in_use(max_commands as int, r),
        slot_of(max_commands as int, r) == i,
        r matches TableRef::Extra { page, .. } ==> page < extra_pages_for(max_commands as int),
        table_offset(max_commands as int, r) + CMD_TABLE_SIZE <= PAGE_SIZE - (if r is Shared {
            RCVD_FIS_SIZE
        } else {
            0
        }),
{
    let cl_size = max_commands * CMD_HEADER_SIZE;
    let n_shared = (PAGE_SIZE - cl_size) / CMD_TABLE_SIZE - 1;
    if i < n_shared {
        TableRef::Shared { index: i }
    } else {
        let i = i - n_shared;
        TableRef::Extra { page: i / CMDS_PER_PAGE, index: i % CMDS_PER_PAGE }
    }
}

/// Slots and the places of their command tables correspond one to one: every
/// slot has its place, `slot_of` leads back from the place to the slot, and
/// every place in use is the place of the slot that `slot_of` names.
pub proof fn lemma_table_ref_bijective(max_commands: int)
    requires
        0 <= max_commands <= 32,
    ensures
        forall|i: int|
            0 <= i < max_commands ==> table_ref_in_use(max_commands, #[trigger] table_ref(
                max_commands,
                i,
            )) && slot_of(max_commands, table_ref(max_commands, i)) == i,
        forall|r: TableRef| #[trigger]
            table_ref_in_use(max_commands, r) ==> slot_of(max_commands, r) < max_commands
                && 0 <= slot_of(max_commands, r) && table_ref(
                max_commands,
                slot_of(max_commands, r),
            ) == r,
{
    assert forall|r: TableRef| #[trigger] table_ref_in_use(max_commands, r) implies slot_of(
        max_commands,
        r,
    ) < max_commands && 0 <= slot_of(max_commands, r) && table_ref(
        max_commands,
        slot_of(max_commands, r),
    ) == r by {
        let n = shared_tables(max_commands);
        match r {
            TableRef::Shared { index } => {},
            TableRef::Extra { page, index } => {
                let s = n + page * 16 + index;
                assert((s - n) / 16 == page as int);
                assert((s - n) % 16 == index as int);
            },
        }
    }
}

/// No two slots share a command table.
pub proof fn lemma_table_ref_injective(max_commands: int, i: int, j: int)
    requires
        0 <= max_commands <= 32,
        0 <= i < max_commands,
        0 <= j < max_commands,
        i != j,
    ensures
        table_ref(max_commands, i) != table_ref(max_commands, j),
{
    lemma_table_ref_bijective(max_commands);
    assert(slot_of(max_commands, table_ref(max_commands, i)) == i);
    assert(slot_of(max_commands, table_ref(max_commands, j)) == j);
}

/// Whether `addr` is the physical address of a page.
pub open spec fn is_page(addr: u64) -> bool {
    addr % 0x1000 == 0
}

/// Whether the pages `cl_page` and `table_pages` can back a port with
/// `max_commands` slots: there are as many extra pages as the layout needs, and
/// all are pages, no two of them the same.
pub open spec fn pages_fit(max_commands: int, cl_page: u64, table_pages: Seq<u64>) -> bool {
    &&& 0 <= max_commands <= 32
    &&& is_page(cl_page)
    &&& table_pages.len() == extra_pages_for(max_commands)
    &&& forall|k: int| 0 <= k < table_pages.len() ==> is_page(#[trigger] table_pages[k])
    &&& forall|k: int| 0 <= k < table_pages.len() ==> #[trigger] table_pages[k] != cl_page
    &&& forall|k: int, l: int|
        0 <= k < l < table_pages.len() ==> #[trigger] table_pages[k] != #[trigger] table_pages[l]
}

/// The physical pages that back one port.
#[derive(Debug)]
pub struct PortMemory {
    max_commands: usize,
    cl_page: u64,
    table_pages: Vec<u64>,
}

impl PortMemory {
    /// Number of command slots that the memory is laid out for.
    pub closed spec fn max_commands(&self) -> int {
        self.max_commands as int
    }

    /// Physical address of the page that holds the command list and the
    /// received-FIS area.
    pub closed spec fn cl_page(&self) -> u64 {
        self.cl_page
    }

    /// Physical addresses of the extra pages of command tables.
    pub closed spec fn extra_pages(&self) -> Seq<u64> {
        self.table_pages@
    }

    /// The invariant of the type: the pages fit the layout.
    #[verifier::type_invariant]
    pub open spec fn wf(&self) -> bool {
        pages_fit(self.max_commands(), self.cl_page(), self.extra_pages())
    }

    /// Physical address of the received-FIS area.
    pub open spec fn rcvd_fis_addr(&self) -> int {
        self.cl_page() + 0x1000 - 0x100
    }

    /// Physical address of the command header of slot `i`.
    pub open spec fn header_addr(&self, i: int) -> int {
        self.cl_page() + i * 32
    }

    /// Physical address of the command table of slot `i`.
    pub open spec fn table_addr(&self, i: int) -> int
        recommends
            0 <= i < self.max_commands(),
    {
        let r = table_ref(self.max_commands(), i);
        match r {
            TableRef::Shared { index } => self.cl_page() + table_offset(self.max_commands(), r),
            TableRef::Extra { page, index } => self.extra_pages()[page as int] + table_offset(
                self.max_commands(),
                r,
            ),
        }
    }

    /// Takes the pages that the allocator handed out for a port with
    /// `max_commands` slots. `None` when they do not fit the layout.
    pub fn new(max_commands: usize, cl_page: u64, table_pages: Vec<u64>) -> (r: Option<
        PortMemory,
    >)
        ensures
            r is Some <==> pages_fit(max_commands as int, cl_page, table_pages@),
            r matches Some(m) ==> m.wf() && m.max_commands() == max_commands && m.cl_page()
                == cl_page && m.extra_pages() == table_pages@,
    {
        if max_commands > MAX_COMMANDS || cl_page % 0x1000 != 0 {
            return None;
        }
        if table_pages.len() != table_pages_needed(max_commands) {
            return None;
        }
        let n = table_pages.len();
        let mut k: usize = 0;
        while k < n
            invariant
                n == table_pages.len(),
                k <= n,
                forall|a: int| 0 <= a < k ==> is_page(#[trigger] table_pages[a]),
                forall|a: int| 0 <= a < k ==> #[trigger] table_pages[a] != cl_page,
                forall|a: int, b: int|
                    0 <= a < b < table_pages.len() && a < k ==> #[trigger] table_pages[a]
                        != #[trigger] table_pages[b],
            decreases n - k,
        {
            if table_pages[k] % 0x1000 != 0 || table_pages[k] == cl_page {
                return None;
            }
            let mut l: usize = k + 1;
            while l < n
                invariant
                    n == table_pages.len(),
                    k < l <= n,
                    forall|b: int| k < b < l ==> table_pages[k as int] != #[trigger] table_pages[b],
                decreases n - l,
            {
                if table_pages[k] == table_pages[l] {
                    return None;
                }
                l += 1;
            }
            k += 1;
        }
        Some(PortMemory { max_commands, cl_page, table_pages })
    }

    /// Number of command slots that the memory is laid out for.
    pub fn slots(&self) -> (r: usize)
        ensures
            r == self.max_commands(),
            r <= MAX_COMMANDS,
    {
        proof {
            use_type_invariant(self);
        }
        self.max_commands
    }

    /// Physical address of the command list, which the port's command-list
    /// base registers take. It lies on a page boundary, so on the 1 KB boundary
    /// that the adapter asks for.
    pub fn command_list_phys(&self) -> (r: u64)
        ensures
            r == self.cl_page(),
            r % 1024 == 0,
    {
        proof {
            use_type_invariant(self);
        }
        self.cl_page
    }

    /// Physical address of the received-FIS area, which the port's FIS base
    /// registers take: the last 256 bytes of the command list's page.
    pub fn rcvd_fis_phys(&self) -> (r: u64)
        ensures
            r == self.rcvd_fis_addr(),
            r % 256 == 0,
    {
        proof {
            use_type_invariant(self);
        }
        self.cl_page + (PAGE_SIZE - RCVD_FIS_SIZE) as u64
    }

    /// Physical address of the command table of slot `i`, which the slot's
    /// command header points at.
    pub fn table_phys(&self, i: usize) -> (r: u64)
        requires
            i < self.max_commands(),
        ensures
            r == self.table_addr(i as int),
    {
        proof {
            use_type_invariant(self);
        }
        match cmdidx_to_ref(self.max_commands, i) {
            TableRef::Shared { index } => self.cl_page + (self.max_commands * CMD_HEADER_SIZE
                + index * CMD_TABLE_SIZE) as u64,
            TableRef::Extra { page, index } => self.table_pages[page] + (index
                * CMD_TABLE_SIZE) as u64,
        }
    }
}

/// The command list, the received-FIS area and the command tables of a port do
/// not overlap: the command tables of two slots are 256 bytes of their own, and
/// the table of a slot lies clear of the command list and of the received-FIS
/// area.
pub proof fn lemma_regions_disjoint(m: PortMemory, i: int, j: int)
    requires
        m.wf(),
        0 <= i < m.max_commands(),
        0 <= j < m.max_commands(),
        i != j,
    ensures
        m.table_addr(i) + 0x100 <= m.table_addr(j) || m.table_addr(j) + 0x100 <= m.table_addr(i),
        m.table_addr(i) + 0x100 <= m.cl_page() || m.cl_page() + command_list_size(
            m.max_commands(),
        ) <= m.table_addr(i),
        m.table_addr(i) + 0x100 <= m.rcvd_fis_addr() || m.rcvd_fis_addr() + 0x100 <= m.table_addr(
            i,
        ),
{
    let max = m.max_commands();
    let ri = table_ref(max, i);
    let rj = table_ref(max, j);
    lemma_table_ref_bijective(max);
    assert(table_ref_in_use(max, ri) && table_ref_in_use(max, rj));
    assert(slot_of(max, ri) == i && slot_of(max, rj) == j);
    lemma_page_apart(m, ri);
    lemma_page_apart(m, rj);
    match (ri, rj) {
        (TableRef::Extra { page: pi, index: ii }, TableRef::Extra { page: pj, index: ij }) => {
            if pi != pj {
                lemma_pages_apart(m.extra_pages()[pi as int], m.extra_pages()[pj as int]);
            }
        },
        _ => {},
    }
}

/// An extra page in use lies clear of the command list's page.
proof fn lemma_page_apart(m: PortMemory, r: TableRef)
    requires
        m.wf(),
        table_ref_in_use(m.max_commands(), r),
    ensures
        r matches TableRef::Extra { page, index } ==> page < m.extra_pages().len() && (
        m.extra_pages()[page as int] + 0x1000 <= m.cl_page() || m.cl_page() + 0x1000
            <= m.extra_pages()[page as int]),
{
    match r {
        TableRef::Extra { page, index } => {
            lemma_pages_apart(m.extra_pages()[page as int], m.cl_page());
        },
        _ => {},
    }
}

/// Two different pages do not overlap.
proof fn lemma_pages_apart(a: u64, b: u64)
    requires
        is_page(a),
        is_page(b),
        a != b,
    ensures
        a + 0x1000 <= b || b + 0x1000 <= a,
{
}

} // verus!
