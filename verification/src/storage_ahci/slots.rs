//! The pool of command slots of one port.
//!
//! A port has up to 32 command slots. Which of them are taken is kept in a
//! bitmask, and the number of free ones in a count of permits. A slot is taken
//! by setting the lowest clear bit of the mask and given back by clearing it.

use vstd::prelude::*;
use crate::storage_ahci::hw::{bit, has_bit, test_bit, bit_of};

verus! {

/// Number of set bits among the lowest `n` bits of `mask`.
pub open spec fn count_used(mask: u32, n: nat) -> nat
    decreases n,
{
    if n == 0 {
        0
    } else {
        count_used(mask, (n - 1) as nat) + if has_bit(mask, (n - 1) as nat) {
            1nat
        } else {
            0nat
        }
    }
}

/// Whether `a` is the lowest of the first `max` bits that is clear in `mask`.
pub open spec fn is_lowest_clear(mask: u32, max: nat, a: nat) -> bool {
    &&& a < max
    &&& !has_bit(mask, a)
    &&& forall|j: nat| j < a ==> has_bit(mask, j)
}

/// Whether each of the first `max` bits of `mask` is set.
pub open spec fn all_used(mask: u32, max: nat) -> bool {
    forall|j: nat| j < max ==> has_bit(mask, j)
}

/// Whether no bit of `mask` from bit `max` on is set.
pub open spec fn none_beyond(mask: u32, max: nat) -> bool {
    forall|j: nat| max <= j < 32 ==> !has_bit(mask, j)
}

proof fn lemma_or_bit(mask: u32, a: u32, j: u32)
    by (bit_vector)
    requires
        a < 32,
        j < 32,
    ensures
        ((mask | (1u32 << a)) & (1u32 << j) != 0) == ((mask & (1u32 << j) != 0) || j == a),
{
}

proof fn lemma_clear_bit(mask: u32, a: u32, j: u32)
    by (bit_vector)
    requires
        a < 32,
        j < 32,
    ensures
        ((mask & !(1u32 << a)) & (1u32 << j) != 0) == ((mask & (1u32 << j) != 0) && j != a),
{
}

proof fn lemma_zero_bit(j: u32)
    by (bit_vector)
    requires
        j < 32,
    ensures
        0u32 & (1u32 << j) == 0,
{
}

proof fn lemma_no_bits(mask: u32)
    by (bit_vector)
    requires
        mask & (1u32 << 0) == 0,
        mask & (1u32 << 1) == 0,
        mask & (1u32 << 2) == 0,
        mask & (1u32 << 3) == 0,
        mask & (1u32 << 4) == 0,
        mask & (1u32 << 5) == 0,
        mask & (1u32 << 6) == 0,
        mask & (1u32 << 7) == 0,
        mask & (1u32 << 8) == 0,
        mask & (1u32 << 9) == 0,
        mask & (1u32 << 10) == 0,
        mask & (1u32 << 11) == 0,
        mask & (1u32 << 12) == 0,
        mask & (1u32 << 13) == 0,
        mask & (1u32 << 14) == 0,
        mask & (1u32 << 15) == 0,
        mask & (1u32 << 16) == 0,
        mask & (1u32 << 17) == 0,
        mask & (1u32 << 18) == 0,
        mask & (1u32 << 19) == 0,
        mask & (1u32 << 20) == 0,
        mask & (1u32 << 21) == 0,
        mask & (1u32 << 22) == 0,
        mask & (1u32 << 23) == 0,
        mask & (1u32 << 24) == 0,
        mask & (1u32 << 25) == 0,
        mask & (1u32 << 26) == 0,
        mask & (1u32 << 27) == 0,
        mask & (1u32 << 28) == 0,
        mask & (1u32 << 29) == 0,
        mask & (1u32 << 30) == 0,
        mask & (1u32 << 31) == 0,
    ensures
        mask == 0,
{
}

/// Setting bit `a` of a mask sets that bit and leaves the others as they were.
pub proof fn lemma_take_bit(mask: u32, a: nat, j: nat)
    requires
        a < 32,
        j < 32,
    ensures
        has_bit(mask | bit(a), j) == (has_bit(mask, j) || j == a),
{
    lemma_or_bit(mask, a as u32, j as u32);
}

/// Clearing bit `a` of a mask clears that bit and leaves the others as they
/// were.
pub proof fn lemma_drop_bit(mask: u32, a: nat, j: nat)
    requires
        a < 32,
        j < 32,
    ensures
        has_bit(mask & !bit(a), j) == (has_bit(mask, j) && j != a),
{
    lemma_clear_bit(mask, a as u32, j as u32);
}

/// The empty mask has no bit set, and a mask without a set bit is empty.
pub proof fn lemma_empty_mask(mask: u32)
    ensures
        mask == 0 <==> forall|j: nat| j < 32 ==> !has_bit(mask, j),
{
    if mask == 0 {
        assert forall|j: nat| j < 32 implies !has_bit(mask, j) by {
            lemma_zero_bit(j as u32);
        }
    }
    if forall|j: nat| j < 32 ==> !has_bit(mask, j) {
        assert forall|j: u32| j < 32 implies mask & (1u32 << j) == 0 by {
            assert(!has_bit(mask, j as nat));
        }
        lemma_no_bits(mask);
    }
}

/// The count of used bits does not exceed the number of bits counted, and
/// reaches it exactly when all of them are set.
pub proof fn lemma_count_bound(mask: u32, n: nat)
    ensures
        count_used(mask, n) <= n,
        count_used(mask, n) == n <==> all_used(mask, n),
        count_used(mask, n) == 0 <==> forall|j: nat| j < n ==> !has_bit(mask, j),
    decreases n,
{
    if n > 0 {
        lemma_count_bound(mask, (n - 1) as nat);
        if all_used(mask, n) {
            assert(has_bit(mask, (n - 1) as nat));
            assert(all_used(mask, (n - 1) as nat));
        }
        if count_used(mask, n) == n {
            assert(all_used(mask, (n - 1) as nat));
        }
    }
}

/// Masks that agree on their lowest `n` bits have the same count there.
pub proof fn lemma_count_agrees(m1: u32, m2: u32, n: nat)
    requires
        forall|j: nat| j < n ==> has_bit(m1, j) == has_bit(m2, j),
    ensures
        count_used(m1, n) == count_used(m2, n),
    decreases n,
{
    if n > 0 {
        lemma_count_agrees(m1, m2, (n - 1) as nat);
    }
}

/// Setting a clear bit among the lowest `n` raises the count by one.
pub proof fn lemma_count_take(mask: u32, a: nat, n: nat)
    requires
        a < n <= 32,
        !has_bit(mask, a),
    ensures
        count_used(mask | bit(a), n) == count_used(mask, n) + 1,
    decreases n,
{
    let taken = mask | bit(a);
    lemma_take_bit(mask, a, (n - 1) as nat);
    if a == n - 1 {
        assert forall|j: nat| j < (n - 1) as nat implies has_bit(taken, j) == has_bit(mask, j) by {
            lemma_take_bit(mask, a, j);
        }
        lemma_count_agrees(taken, mask, (n - 1) as nat);
    } else {
        lemma_count_take(mask, a, (n - 1) as nat);
    }
}

/// Clearing a set bit among the lowest `n` lowers the count by one.
pub proof fn lemma_count_drop(mask: u32, a: nat, n: nat)
    requires
        a < n <= 32,
        has_bit(mask, a),
    ensures
        count_used(mask & !bit(a), n) + 1 == count_used(mask, n),
    decreases n,
{
    let dropped = mask & !bit(a);
    lemma_drop_bit(mask, a, (n - 1) as nat);
    if a == n - 1 {
        assert forall|j: nat| j < (n - 1) as nat implies has_bit(dropped, j) == has_bit(
            mask,
            j,
        ) by {
            lemma_drop_bit(mask, a, j);
        }
        lemma_count_agrees(dropped, mask, (n - 1) as nat);
    } else {
        lemma_count_drop(mask, a, (n - 1) as nat);
    }
}

/// Finds the lowest of the first `max_commands` bits that is clear in `mask`.
/// `None` when all of them are set.
pub fn lowest_clear_bit(mask: u32, max_commands: u8) -> (r: Option<u8>)
    requires
        max_commands <= 32,
    ensures
        match r {
            Some(a) => is_lowest_clear(mask, max_commands as nat, a as nat),
            None => all_used(mask, max_commands as nat),
        },
    no_unwind
{
    let mut i: u8 = 0;
    while i < max_commands
        invariant
            i <= max_commands <= 32,
            forall|j: nat| j < i ==> has_bit(mask, j),
        decreases max_commands - i,
    {
        if !test_bit(mask, i) {
            return Some(i);
        }
        i += 1;
    }
    None
}

/// One attempt to take a slot, given the mask `observed` of the slots taken:
/// the lowest free slot and the mask to put in place of `observed`, in which
/// that slot is marked. `None` when every slot is taken.
///
/// Callers that share the mask put the new mask in place by compare-and-swap
/// against `observed` and try again with the mask found when another caller
/// was faster. An attempt that takes effect is one acquisition on the mask it
/// replaced.
pub fn claim(observed: u32, max_commands: u8) -> (r: Option<(u8, u32)>)
    requires
        max_commands <= 32,
    ensures
        match r {
            Some((avail, taken)) => is_lowest_clear(observed, max_commands as nat, avail as nat)
                && taken == observed | bit(avail as nat),
            None => all_used(observed, max_commands as nat),
        },
    no_unwind
{
    match lowest_clear_bit(observed, max_commands) {
        Some(avail) => Some((avail, observed | bit_of(avail))),
        None => None,
    }
}

/// The mask to put in place of `observed` to give slot `idx` back: `observed`
/// without the slot's bit.
pub fn unclaim(observed: u32, idx: u8) -> (r: u32)
    requires
        idx < 32,
    ensures
        r == observed & !bit(idx as nat),
    no_unwind
{
    observed & !bit_of(idx)
}

/// What a pool of command slots holds.
pub struct PoolState {
    /// Number of slots of the port.
    pub capacity: nat,
    /// Bit `i` is set while slot `i` is taken.
    pub used: u32,
    /// Number of slots that can still be taken.
    pub permits: nat,
}

impl PoolState {
    /// The invariant of a pool: only bits of slots that exist are set, and the
    /// taken slots and the permits add up to the capacity.
    pub open spec fn wf(self) -> bool {
        &&& self.capacity <= 32
        &&& none_beyond(self.used, self.capacity)
        &&& count_used(self.used, self.capacity) + self.permits == self.capacity
    }

    /// Whether slot `i` is taken.
    pub open spec fn in_use(self, i: nat) -> bool {
        has_bit(self.used, i)
    }

    /// A pool of `capacity` slots, none of them taken.
    pub open spec fn fresh(capacity: nat) -> PoolState {
        PoolState { capacity, used: 0, permits: capacity }
    }

    /// The pool after slot `a` was taken from it.
    pub open spec fn take(self, a: nat) -> PoolState {
        PoolState {
            capacity: self.capacity,
            used: self.used | bit(a),
            permits: (self.permits - 1) as nat,
        }
    }

    /// The pool after slot `a` was given back to it.
    pub open spec fn give_back(self, a: nat) -> PoolState {
        PoolState { capacity: self.capacity, used: self.used & !bit(a), permits: self.permits + 1 }
    }

    /// The slot that the next acquisition hands out, if there is a free one.
    pub open spec fn next_free(self, a: nat) -> bool {
        is_lowest_clear(self.used, self.capacity, a)
    }
}

/// A fresh pool meets the invariant.
pub proof fn lemma_fresh_wf(capacity: nat)
    requires
        capacity <= 32,
    ensures
        PoolState::fresh(capacity).wf(),
{
    lemma_empty_mask(0);
    lemma_count_bound(0, capacity);
}

/// A pool has a free slot exactly while it has a permit.
pub proof fn lemma_permits_free(s: PoolState)
    requires
        s.wf(),
    ensures
        s.permits == 0 <==> all_used(s.used, s.capacity),
        s.permits <= s.capacity,
{
    lemma_count_bound(s.used, s.capacity);
}

/// Taking the next free slot keeps the invariant, marks that slot and no other.
pub proof fn lemma_take_wf(s: PoolState, a: nat)
    requires
        s.wf(),
        s.next_free(a),
    ensures
        s.permits > 0,
        s.take(a).wf(),
        s.take(a).permits + 1 == s.permits,
        forall|j: nat| j < 32 ==> #[trigger] s.take(a).in_use(j) == (s.in_use(j) || j == a),
{
    lemma_permits_free(s);
    lemma_count_take(s.used, a, s.capacity);
    assert forall|j: nat| j < 32 implies #[trigger] has_bit(s.used | bit(a), j) == (has_bit(
        s.used,
        j,
    ) || j == a) by {
        lemma_take_bit(s.used, a, j);
    }
}

/// Giving back a taken slot keeps the invariant, frees that slot and no other.
pub proof fn lemma_give_back_wf(s: PoolState, a: nat)
    requires
        s.wf(),
        a < 32,
        s.in_use(a),
    ensures
        a < s.capacity,
        s.give_back(a).wf(),
        s.give_back(a).permits == s.permits + 1,
        forall|j: nat| j < 32 ==> #[trigger] s.give_back(a).in_use(j) == (s.in_use(j) && j != a),
{
    assert forall|j: nat| j < 32 implies #[trigger] has_bit(s.used & !bit(a), j) == (has_bit(
        s.used,
        j,
    ) && j != a) by {
        lemma_drop_bit(s.used, a, j);
    }
    lemma_count_drop(s.used, a, s.capacity);
}

proof fn lemma_or_then_clear(mask: u32, a: u32)
    by (bit_vector)
    requires
        a < 32,
        mask & (1u32 << a) == 0,
    ensures
        (mask | (1u32 << a)) & !(1u32 << a) == mask,
{
}

/// Taking a slot and giving it back leaves the pool as it was.
pub proof fn lemma_take_then_give_back(s: PoolState, a: nat)
    requires
        s.wf(),
        s.next_free(a),
    ensures
        s.take(a).give_back(a) == s,
{
    lemma_take_wf(s, a);
    lemma_or_then_clear(s.used, a as u32);
}

/// The pool of command slots of one port.
#[derive(Debug)]
pub struct SlotPool {
    max_commands: u8,
    used: u32,
    free: u8,
}

impl View for SlotPool {
    type V = PoolState;

    closed spec fn view(&self) -> PoolState {
        PoolState {
            capacity: self.max_commands as nat,
            used: self.used,
            permits: self.free as nat,
        }
    }
}

impl SlotPool {
    /// The invariant of the type: that of the pool it holds.
    #[verifier::type_invariant]
    pub open spec fn wf(&self) -> bool {
        self@.wf()
    }

    /// A pool of `max_commands` slots, all of them free.
    pub fn new(max_commands: u8) -> (r: SlotPool)
        requires
            max_commands <= 32,
        ensures
            r@ == PoolState::fresh(max_commands as nat),
            r@.wf(),
    {
        proof {
            lemma_fresh_wf(max_commands as nat);
        }
        SlotPool { max_commands, used: 0, free: max_commands }
    }

    /// Number of slots of the pool.
    pub fn capacity(&self) -> (r: u8)
        ensures
            r == self@.capacity,
            r <= 32,
    {
        proof {
            use_type_invariant(self);
        }
        self.max_commands
    }

    /// The mask of taken slots.
    pub fn used(&self) -> (r: u32)
        ensures
            r == self@.used,
            self@.wf(),
    {
        proof {
            use_type_invariant(self);
        }
        self.used
    }

    /// Number of slots that can still be taken.
    pub fn permits(&self) -> (r: u8)
        ensures
            r == self@.permits,
            self@.wf(),
    {
        proof {
            use_type_invariant(self);
        }
        self.free
    }

    /// Takes the lowest free slot. `None`, with the pool unchanged, when every
    /// slot is taken: the caller then has to wait for a release.
    pub fn acquire(&mut self) -> (r: Option<u8>)
        ensures
            old(self)@.wf(),
            final(self)@.wf(),
            r is Some <==> old(self)@.permits > 0,
            match r {
                Some(a) => old(self)@.next_free(a as nat) && final(self)@ == old(self)@.take(
                    a as nat,
                ),
                None => final(self)@ == old(self)@,
            },
        no_unwind
    {
        proof {
            use_type_invariant(&*self);
            lemma_permits_free(self@);
        }
        match claim(self.used, self.max_commands) {
            Some((avail, taken)) => {
                proof {
                    lemma_take_wf(self@, avail as nat);
                }
                *self = SlotPool {
                    max_commands: self.max_commands,
                    used: taken,
                    free: self.free - 1,
                };
                Some(avail)
            },
            None => None,
        }
    }

    /// Gives slot `idx` back. The slot has to be one that is taken.
    pub fn release(&mut self, idx: u8)
        requires
            idx < 32,
            old(self)@.in_use(idx as nat),
        ensures
            old(self)@.wf(),
            final(self)@.wf(),
            final(self)@ == old(self)@.give_back(idx as nat),
        no_unwind
    {
        proof {
            use_type_invariant(&*self);
            lemma_give_back_wf(self@, idx as nat);
            lemma_permits_free(self@.give_back(idx as nat));
        }
        *self = SlotPool {
            max_commands: self.max_commands,
            used: unclaim(self.used, idx),
            free: self.free + 1,
        };
    }
}

/// A pool together with the slots that were handed out and not yet given
/// back, one entry for each holder, in the order of acquisition.
pub struct Ledger {
    pub pool: PoolState,
    pub holders: Seq<nat>,
}

impl Ledger {
    /// The ledger of a fresh pool: nothing taken, nobody holds a slot.
    pub open spec fn start(capacity: nat) -> Ledger {
        Ledger { pool: PoolState::fresh(capacity), holders: Seq::empty() }
    }

    /// One acquisition: a caller that got a permit takes the lowest free
    /// slot `a` and becomes its holder.
    pub open spec fn acquires(self, after: Ledger, a: nat) -> bool {
        &&& self.pool.permits > 0
        &&& self.pool.next_free(a)
        &&& after.pool == self.pool.take(a)
        &&& after.holders == self.holders.push(a)
    }

    /// One release: the holder at position `k` gives its slot back.
    pub open spec fn releases(self, after: Ledger, k: int) -> bool {
        &&& 0 <= k < self.holders.len()
        &&& after.pool == self.pool.give_back(self.holders[k])
        &&& after.holders == self.holders.remove(k)
    }

    /// One step of the pool: an acquisition or a release.
    pub open spec fn steps_to(self, after: Ledger) -> bool {
        ||| exists|a: nat| self.acquires(after, a)
        ||| exists|k: int| self.releases(after, k)
    }

    /// What holds of the ledger at any time: the pool meets its invariant, no
    /// slot has two holders, and the slots marked in the mask are those that
    /// have a holder.
    pub open spec fn inv(self) -> bool {
        &&& self.pool.wf()
        &&& self.holders.no_duplicates()
        &&& forall|k: int| 0 <= k < self.holders.len() ==> #[trigger] self.holders[k] < 32
        &&& forall|i: nat| i < 32 ==> (self.pool.in_use(i) <==> self.holders.contains(i))
    }
}

/// Whether `history` lists the states of a pool of `capacity` slots from its
/// creation on, each reached from the one before by one acquisition or one
/// release. Steps of concurrent callers appear in the order in which their
/// updates of the mask took effect.
pub open spec fn is_history(history: Seq<Ledger>, capacity: nat) -> bool {
    &&& history.len() > 0
    &&& history[0] == Ledger::start(capacity)
    &&& forall|n: int| 0 <= n < history.len() - 1 ==> (#[trigger] history[n]).steps_to(history[n + 1])
}

/// The start of a ledger meets the invariant.
pub proof fn lemma_ledger_start(capacity: nat)
    requires
        capacity <= 32,
    ensures
        Ledger::start(capacity).inv(),
{
    lemma_fresh_wf(capacity);
    lemma_empty_mask(0);
}

/// A step of the pool keeps the ledger's invariant.
pub proof fn lemma_ledger_step(before: Ledger, after: Ledger)
    requires
        before.inv(),
        before.steps_to(after),
    ensures
        after.inv(),
{
    if exists|a: nat| before.acquires(after, a) {
        let a = choose|a: nat| before.acquires(after, a);
        lemma_take_wf(before.pool, a);
        assert(!before.holders.contains(a));
        assert forall|i: nat| i < 32 implies (after.pool.in_use(i) <==> after.holders.contains(
            i,
        )) by {
            if after.holders.contains(i) {
                let k = choose|k: int| 0 <= k < after.holders.len() && after.holders[k] == i;
                if k < before.holders.len() {
                    assert(before.holders[k] == i);
                }
            }
            if before.holders.contains(i) {
                let k = choose|k: int| 0 <= k < before.holders.len() && before.holders[k] == i;
                assert(after.holders[k] == i);
            }
            if i == a {
                assert(after.holders[before.holders.len() as int] == a);
            }
        }
        assert forall|k: int, l: int|
            0 <= k < after.holders.len() && 0 <= l < after.holders.len() && k
                != l implies after.holders[k] != after.holders[l] by {
            if k < before.holders.len() && l < before.holders.len() {
            } else if k < before.holders.len() {
                assert(before.holders.contains(before.holders[k]));
            } else {
                assert(before.holders.contains(before.holders[l]));
            }
        }
    } else {
        let k = choose|k: int| before.releases(after, k);
        let a = before.holders[k];
        assert(before.holders.contains(a));
        lemma_give_back_wf(before.pool, a);
        assert forall|i: nat| i < 32 implies (after.pool.in_use(i) <==> after.holders.contains(
            i,
        )) by {
            if after.holders.contains(i) {
                let l = choose|l: int| 0 <= l < after.holders.len() && after.holders[l] == i;
                if l < k {
                    assert(before.holders[l] == i);
                } else {
                    assert(before.holders[l + 1] == i);
                }
                assert(before.holders.contains(i));
            }
            if before.holders.contains(i) && i != a {
                let l = choose|l: int| 0 <= l < before.holders.len() && before.holders[l] == i;
                if l < k {
                    assert(after.holders[l] == i);
                } else {
                    assert(after.holders[l - 1] == i);
                }
            }
        }
    }
}

/// In every state that a pool can reach, no slot has two holders: of any two
/// callers that hold a slot at the same time, each holds another one.
pub proof fn lemma_holders_distinct(history: Seq<Ledger>, capacity: nat, n: int)
    requires
        capacity <= 32,
        is_history(history, capacity),
        0 <= n < history.len(),
    ensures
        history[n].inv(),
        forall|k: int, l: int|
            0 <= k < l < history[n].holders.len() ==> history[n].holders[k] != history[n].holders[l],
    decreases n,
{
    if n == 0 {
        lemma_ledger_start(capacity);
    } else {
        lemma_holders_distinct(history, capacity, n - 1);
        assert(history[n - 1].steps_to(history[n - 1 + 1]));
        lemma_ledger_step(history[n - 1], history[n]);
    }
}

/// Whenever every slot that was handed out has been given back, the pool is
/// as it was when it was made: the mask is zero and all permits are there.
pub proof fn lemma_idle_pool_is_fresh(history: Seq<Ledger>, capacity: nat, n: int)
    requires
        capacity <= 32,
        is_history(history, capacity),
        0 <= n < history.len(),
        history[n].holders.len() == 0,
    ensures
        history[n].pool.used == 0,
        history[n].pool.permits == capacity,
        history[n].pool == PoolState::fresh(capacity),
{
    lemma_holders_distinct(history, capacity, n);
    lemma_capacity_kept(history, capacity, n);
    let s = history[n];
    assert forall|j: nat| j < 32 implies !has_bit(s.pool.used, j) by {
        assert(s.pool.in_use(j) <==> s.holders.contains(j));
    }
    lemma_empty_mask(s.pool.used);
    lemma_count_bound(0, capacity);
}

/// No step changes the capacity of the pool.
pub proof fn lemma_capacity_kept(history: Seq<Ledger>, capacity: nat, n: int)
    requires
        is_history(history, capacity),
        0 <= n < history.len(),
    ensures
        history[n].pool.capacity == capacity,
    decreases n,
{
    if n > 0 {
        lemma_capacity_kept(history, capacity, n - 1);
        assert(history[n - 1].steps_to(history[n - 1 + 1]));
    }
}

} // verus!
