//! xHCI rings: producer rings (command and transfer rings) that end in a
//! Link TRB, and the event-ring consumer with its cycle-bit hand-off.
use vstd::prelude::*;
use crate::trb::{cycle_of, Trb, TRB_LINK};

verus! {

/// Bytes of one TRB.
pub const TRB_SIZE: usize = 16;

/// Toggle-Cycle bit of a Link TRB.
pub const LINK_TOGGLE_CYCLE: u32 = 2;

/// `control` with bit 0 replaced by `c`.
pub open spec fn with_cycle(control: u32, c: bool) -> u32 {
    (control & !1u32) | (if c { 1u32 } else { 0u32 })
}

/// Producer position after one more TRB on a ring of `n` usable slots.
pub open spec fn advance(n: int, index: int, cycle: bool) -> (int, bool) {
    if index + 1 >= n {
        (0, !cycle)
    } else {
        (index + 1, cycle)
    }
}

/// Producer position after `k` TRBs on a fresh ring of `n` usable slots.
pub open spec fn position_after(n: int, k: nat) -> (int, bool)
    decreases k,
{
    if k == 0 {
        (0, true)
    } else {
        let (i, c) = position_after(n, (k - 1) as nat);
        advance(n, i, c)
    }
}

/// Abstract state of a producer ring.
pub struct RingView {
    pub base: u64,
    /// Usable slots; the Link TRB sits right after them.
    pub size: nat,
    pub enqueue_index: nat,
    pub cycle_bit: bool,
    pub slots: Seq<Trb>,
}

/// A producer ring over `size + 1` TRBs whose last one links back to the
/// start.
pub struct TransferRing {
    base: u64,
    size: usize,
    enqueue_index: usize,
    cycle_bit: bool,
    trbs: Vec<Trb>,
}

/// The command ring follows the same discipline as a transfer ring.
pub type CommandRing = TransferRing;

impl View for TransferRing {
    type V = RingView;

    closed spec fn view(&self) -> RingView {
        RingView {
            base: self.base,
            size: self.size as nat,
            enqueue_index: self.enqueue_index as nat,
            cycle_bit: self.cycle_bit,
            slots: self.trbs@,
        }
    }
}

proof fn lemma_with_cycle(control: u32, c: bool)
    ensures
        cycle_of(with_cycle(control, c)) == c,
        with_cycle(control, c) >> 10 == control >> 10,
{
    if c {
        assert(((control & !1u32) | 1u32) & 1u32 == 1) by (bit_vector);
        assert(((control & !1u32) | 1u32) >> 10u32 == control >> 10u32) by (bit_vector);
    } else {
        assert(((control & !1u32) | 0u32) & 1u32 == 0) by (bit_vector);
        assert(((control & !1u32) | 0u32) >> 10u32 == control >> 10u32) by (bit_vector);
    }
}

impl TransferRing {
    pub open spec fn wf(&self) -> bool {
        &&& self@.size >= 1
        &&& self@.slots.len() == self@.size + 1
        &&& self@.enqueue_index < self@.size
    }

    /// The cycle bit of the Link TRB.
    pub open spec fn link_cycle(&self) -> bool {
        cycle_of(self@.slots[self@.size as int].control)
    }

    /// A fresh ring over `size_bytes` bytes at physical address `buffer`: all
    /// TRBs zero but the last, a Link TRB back to `buffer` with Toggle-Cycle
    /// set. Producer at slot 0 with cycle 1.
    pub fn new(buffer: u64, size_bytes: usize) -> (r: Self)
        requires
            size_bytes >= 2 * TRB_SIZE,
        ensures
            r.wf(),
            r@.base == buffer,
            r@.size == size_bytes as int / TRB_SIZE as int - 1,
            r@.enqueue_index == 0,
            r@.cycle_bit,
            forall|i: int| 0 <= i < r@.size ==> r@.slots[i] == Trb::zeroed_spec(),
            r@.slots[r@.size as int] == (Trb {
                param: buffer,
                status: 0,
                control: ((TRB_LINK as u32) << 10u32) | LINK_TOGGLE_CYCLE,
            }),
    {
        let count = size_bytes / TRB_SIZE;
        let mut trbs: Vec<Trb> = Vec::new();
        let mut i: usize = 0;
        while i < count - 1
            invariant
                count >= 2,
                i <= count - 1,
                trbs@.len() == i,
                forall|j: int| 0 <= j < i ==> trbs@[j] == Trb::zeroed_spec(),
            decreases count - 1 - i,
        {
            trbs.push(Trb::zeroed());
            i = i + 1;
        }
        trbs.push(
            Trb { param: buffer, status: 0, control: ((TRB_LINK as u32) << 10) | LINK_TOGGLE_CYCLE },
        );
        TransferRing { base: buffer, size: count - 1, enqueue_index: 0, cycle_bit: true, trbs }
    }

    pub fn base(&self) -> (r: u64)
        ensures
            r == self@.base,
    {
        self.base
    }

    pub fn size(&self) -> (r: usize)
        ensures
            r == self@.size,
    {
        self.size
    }

    pub fn enqueue_index(&self) -> (r: usize)
        ensures
            r == self@.enqueue_index,
    {
        self.enqueue_index
    }

    pub fn cycle_bit(&self) -> (r: bool)
        ensures
            r == self@.cycle_bit,
    {
        self.cycle_bit
    }

    /// TRB `i` of the ring (the Link TRB is `size`).
    pub fn trb(&self, i: usize) -> (r: Trb)
        requires
            self.wf(),
            i <= self@.size,
        ensures
            r == self@.slots[i as int],
    {
        self.trbs[i]
    }

    /// Physical address of TRB `i`.
    pub fn trb_address(&self, i: usize) -> (r: u64)
        requires
            self@.base + (i + 1) * TRB_SIZE <= u64::MAX,
        ensures
            r == self@.base + i * TRB_SIZE,
    {
        self.base + (i as u64) * (TRB_SIZE as u64)
    }

    /// Whether physical address `a` falls within the usable slots.
    pub fn holds_address(&self, a: u64) -> (r: bool)
        ensures
            r == (self@.base <= a && a < self@.base + self@.size * TRB_SIZE),
    {
        if a < self.base {
            return false;
        }
        proof {
            vstd::arithmetic::div_mod::lemma_fundamental_div_mod((a - self.base) as int, 16);
            vstd::arithmetic::div_mod::lemma_mod_pos_bound((a - self.base) as int, 16);
        }
        (a - self.base) / (TRB_SIZE as u64) < self.size as u64
    }

    /// Writes `trb` at the producer position with the current cycle bit and
    /// advances. After the last usable slot the Link TRB's cycle bit is set
    /// to the current cycle, the position wraps to 0 and the cycle flips.
    pub fn enqueue(&mut self, trb: Trb)
        requires
            old(self).wf(),
        ensures
            final(self).wf(),
            final(self)@.base == old(self)@.base,
            final(self)@.size == old(self)@.size,
            (final(self)@.enqueue_index as int, final(self)@.cycle_bit) == advance(
                old(self)@.size as int,
                old(self)@.enqueue_index as int,
                old(self)@.cycle_bit,
            ),
            final(self)@.slots[old(self)@.enqueue_index as int] == (Trb {
                control: with_cycle(trb.control, old(self)@.cycle_bit),
                ..trb
            }),
            cycle_of(final(self)@.slots[old(self)@.enqueue_index as int].control) == old(self)@.cycle_bit,
            old(self)@.enqueue_index + 1 == old(self)@.size ==> final(self).link_cycle() == old(self)@.cycle_bit,
            old(self)@.enqueue_index + 1 < old(self)@.size ==> final(self).link_cycle() == old(self).link_cycle(),
            forall|j: int|
                0 <= j <= old(self)@.size && j != old(self)@.enqueue_index && j != old(self)@.size
                    ==> #[trigger] final(self)@.slots[j] == old(self)@.slots[j],
            final(self)@.slots[old(self)@.size as int].param == old(self)@.slots[old(self)@.size as int].param,
            old(self)@.enqueue_index + 1 == old(self)@.size ==> final(self)@.slots[old(self)@.size as int]
                == (Trb {
                control: with_cycle(old(self)@.slots[old(self)@.size as int].control, old(self)@.cycle_bit),
                ..old(self)@.slots[old(self)@.size as int]
            }),
            old(self)@.enqueue_index + 1 < old(self)@.size ==> final(self)@.slots[old(self)@.size as int]
                == old(self)@.slots[old(self)@.size as int],
    {
        let c: u32 = if self.cycle_bit {
            1
        } else {
            0
        };
        let written = Trb { control: (trb.control & !1) | c, ..trb };
        proof {
            lemma_with_cycle(trb.control, self.cycle_bit);
        }
        let i = self.enqueue_index;
        self.trbs[i] = written;
        self.enqueue_index = i + 1;
        if self.enqueue_index >= self.size {
            let link = self.trbs[self.size];
            proof {
                lemma_with_cycle(link.control, self.cycle_bit);
            }
            self.trbs[self.size] = Trb { control: (link.control & !1) | c, ..link };
            self.enqueue_index = 0;
            self.cycle_bit = !self.cycle_bit;
        }
    }
}

/// After `k` TRBs on a fresh ring of `n` usable slots the producer sits at
/// `k mod n`, and its cycle bit has flipped once per completed lap.
pub proof fn lemma_position_after(n: int, k: nat)
    requires
        n >= 1,
    ensures
        position_after(n, k) == (k as int % n, (k as int / n) % 2 == 0),
    decreases k,
{
    if k == 0 {
        vstd::arithmetic::div_mod::lemma_fundamental_div_mod_converse(0, n, 0, 0);
    } else {
        lemma_position_after(n, (k - 1) as nat);
        let q = (k - 1) / n;
        let r = (k - 1) % n;
        vstd::arithmetic::div_mod::lemma_fundamental_div_mod(k - 1, n);
        vstd::arithmetic::div_mod::lemma_mod_pos_bound(k - 1, n);
        if r + 1 < n {
            assert(k == q * n + (r + 1)) by (nonlinear_arith)
                requires
                    k - 1 == n * q + r,
            ;
            vstd::arithmetic::div_mod::lemma_fundamental_div_mod_converse(k as int, n, q, r + 1);
        } else {
            assert(k == (q + 1) * n + 0) by (nonlinear_arith)
                requires
                    k - 1 == n * q + r,
                    r + 1 == n,
            ;
            vstd::arithmetic::div_mod::lemma_fundamental_div_mod_converse(k as int, n, q + 1, 0);
        }
    }
}

/// Producer position and Link TRB cycle bit after `k` TRBs on a fresh ring
/// of `n` usable slots: the Link TRB starts with cycle 0 and, at each wrap,
/// takes the cycle of the lap just completed (as `enqueue` does).
pub open spec fn ring_after(n: int, k: nat) -> (int, bool, bool)
    decreases k,
{
    if k == 0 {
        (0, true, false)
    } else {
        let (i, c, l) = ring_after(n, (k - 1) as nat);
        let (i2, c2) = advance(n, i, c);
        (i2, c2, if i + 1 >= n {
            c
        } else {
            l
        })
    }
}

/// Once the producer has wrapped at least once, the Link TRB carries the
/// cycle bit of the lap just completed, the complement of the producer's
/// current one; before the first wrap it still has its initial 0.
pub proof fn lemma_link_cycle_after(n: int, k: nat)
    requires
        n >= 1,
    ensures
        (ring_after(n, k).0, ring_after(n, k).1) == position_after(n, k),
        k >= n ==> ring_after(n, k).2 == !ring_after(n, k).1,
        k < n ==> !ring_after(n, k).2,
    decreases k,
{
    if k > 0 {
        lemma_link_cycle_after(n, (k - 1) as nat);
        lemma_position_after(n, (k - 1) as nat);
        let (i, c, l) = ring_after(n, (k - 1) as nat);
        if k - 1 < n {
            vstd::arithmetic::div_mod::lemma_small_mod((k - 1) as nat, n as nat);
        }
    }
}

/// Abstract state of the event-ring consumer.
pub struct EventRingView {
    pub base: u64,
    pub size: nat,
    pub dequeue_index: nat,
    pub cycle_bit: bool,
}

/// Consumer side of the event ring: position and the cycle bit it expects.
pub struct EventRing {
    base: u64,
    size: usize,
    dequeue_index: usize,
    cycle_bit: bool,
}

impl View for EventRing {
    type V = EventRingView;

    closed spec fn view(&self) -> EventRingView {
        EventRingView {
            base: self.base,
            size: self.size as nat,
            dequeue_index: self.dequeue_index as nat,
            cycle_bit: self.cycle_bit,
        }
    }
}

impl EventRing {
    pub open spec fn wf(&self) -> bool {
        &&& self@.size >= 1
        &&& self@.dequeue_index < self@.size
        &&& self@.base + self@.size * TRB_SIZE <= u64::MAX
    }

    /// A consumer at slot 0 of `size` TRBs at `base`, expecting cycle 1.
    pub fn new(base: u64, size: usize) -> (r: Self)
        requires
            size >= 1,
            base + size * TRB_SIZE <= u64::MAX,
        ensures
            r.wf(),
            r@ == (EventRingView { base, size: size as nat, dequeue_index: 0, cycle_bit: true }),
    {
        EventRing { base, size, dequeue_index: 0, cycle_bit: true }
    }

    pub fn cycle_bit(&self) -> (r: bool)
        ensures
            r == self@.cycle_bit,
    {
        self.cycle_bit
    }

    /// Physical address of the next TRB to read (the dequeue pointer).
    pub fn dequeue_address(&self) -> (r: u64)
        requires
            self.wf(),
        ensures
            r == self@.base + self@.dequeue_index * TRB_SIZE,
    {
        assert(self.dequeue_index * TRB_SIZE < self.size * TRB_SIZE);
        self.base + (self.dequeue_index as u64) * (TRB_SIZE as u64)
    }

    /// Offers the TRB read at the dequeue pointer. It is consumed only when
    /// its cycle bit matches the expected one: the position then advances,
    /// wrapping to 0 with the expected cycle flipped. Otherwise nothing
    /// changes and `false` comes back.
    pub fn consume(&mut self, trb: &Trb) -> (r: bool)
        requires
            old(self).wf(),
        ensures
            final(self).wf(),
            r == (cycle_of(trb.control) == old(self)@.cycle_bit),
            !r ==> final(self)@ == old(self)@,
            r ==> final(self)@.base == old(self)@.base && final(self)@.size == old(self)@.size && (
            final(self)@.dequeue_index as int, final(self)@.cycle_bit) == advance(
                old(self)@.size as int,
                old(self)@.dequeue_index as int,
                old(self)@.cycle_bit,
            ),
    {
        if trb.cycle_bit() != self.cycle_bit {
            return false;
        }
        self.dequeue_index = self.dequeue_index + 1;
        if self.dequeue_index >= self.size {
            self.dequeue_index = 0;
            self.cycle_bit = !self.cycle_bit;
        }
        true
    }
}

} // verus!
