//! The vault capacity chain: an append-only, key-derived structure able to
//! hold an arbitrarily large blob inside a network of fixed-size records.
//!
//! Data is split into fixed-size segments. Segment `i` maps to the `i`-th
//! scratchpad derivation discovered by walking the ledger-entry chain from
//! the well-known head index: each ledger entry names one derivation for
//! the next ledger entry and a fixed count of scratchpad derivations.
//! Derivation indices are modelled as plain 64-bit values; the record
//! address written on the network is derived from the vault key and the
//! derivation index by the network client, one to one, so the model
//! carries the derivation index itself as the address.
//!
//! The two-phase protocol mirrors the payment-order protocol: a quote
//! walks and extends the chain in memory only and captures the discovered
//! topology; the commit reuses that topology verbatim, so that quote and
//! commit price and write the same set of addresses.

use vstd::prelude::*;

use crate::receipt::Receipt;

verus! {

/// Scratchpad derivations named by one ledger entry.
pub const SCRATCHPADS_PER_LEDGER_ENTRY: usize = 4;

/// Bytes one scratchpad record holds; data is split into segments of this
/// size.
pub const SEGMENT_SIZE: usize = 4096;

/// One key-owned ledger entry: its own derivation index, the derivation of
/// the next ledger entry, and the scratchpad derivations it names.
#[derive(Clone, Debug)]
pub struct LedgerEntry {
    pub own_derivation: u64,
    pub next_derivation: u64,
    pub scratchpad_derivations: Vec<u64>,
}

/// The vault's capacity chain: the head derivation index and the ledger
/// entries discovered (or planned) from it, in chain order.
#[derive(Debug)]
pub struct VaultChain {
    pub head_derivation: u64,
    pub entries: Vec<LedgerEntry>,
}

/// The scratchpad slots a sequence of ledger entries names, in
/// breadth-first chain-discovery order.
pub open spec fn spec_slots(s: Seq<LedgerEntry>) -> Seq<u64>
    decreases s.len(),
{
    if s.len() == 0 {
        Seq::empty()
    } else {
        spec_slots(s.drop_last()) + s.last().scratchpad_derivations@
    }
}

/// Chain shape: the first entry sits at the head derivation, every entry
/// sits at the previous entry's next derivation, and every entry names
/// exactly the fixed count of scratchpad derivations.
pub open spec fn spec_chained(head: u64, s: Seq<LedgerEntry>) -> bool {
    &&& (s.len() > 0 ==> s[0].own_derivation == head)
    &&& (forall|i: int|
        0 < i < s.len() ==> (#[trigger] s[i]).own_derivation == s[i - 1].next_derivation)
    &&& (forall|i: int|
        0 <= i < s.len() ==> (#[trigger] s[i]).scratchpad_derivations@.len()
            == SCRATCHPADS_PER_LEDGER_ENTRY)
}

impl VaultChain {
    /// Well-formed: properly chained, and no two slots share a derivation,
    /// so no two segments are written to the same record.
    pub open spec fn wf(&self) -> bool {
        &&& spec_chained(self.head_derivation, self.entries@)
        &&& (forall|i: int, j: int|
            0 <= i < j < self.spec_slot_seq().len() ==> self.spec_slot_seq()[i]
                != self.spec_slot_seq()[j])
    }

    /// The slots of this chain, in discovery order.
    pub open spec fn spec_slot_seq(&self) -> Seq<u64> {
        spec_slots(self.entries@)
    }

    /// The derivation at which the next appended ledger entry will sit.
    pub open spec fn spec_next_free(&self) -> u64 {
        if self.entries@.len() == 0 {
            self.head_derivation
        } else {
            self.entries@.last().next_derivation
        }
    }

    /// An empty chain at the given head derivation.
    pub fn empty(head_derivation: u64) -> (r: VaultChain)
        ensures
            r.wf(),
            r.head_derivation == head_derivation,
            r.entries@.len() == 0,
            r.spec_slot_seq() == Seq::<u64>::empty(),
    {
        proof {
            assert(spec_slots(Seq::<LedgerEntry>::empty()) =~= Seq::<u64>::empty());
        }
        VaultChain { head_derivation, entries: Vec::new() }
    }

    /// The slots of this chain, in discovery order, and the derivation of
    /// the next free ledger-entry position: the claimed capacity.
    pub fn claimed_capacity(&self) -> (r: (u64, Vec<u64>))
        ensures
            r.0 == self.spec_next_free(),
            r.1@ == self.spec_slot_seq(),
    {
        let next_free = if self.entries.len() == 0 {
            self.head_derivation
        } else {
            self.entries[self.entries.len() - 1].next_derivation
        };
        let n = self.entries.len();
        let mut slots: Vec<u64> = Vec::new();
        let mut i: usize = 0;
        proof {
            assert(spec_slots(self.entries@.take(0)) =~= Seq::<u64>::empty());
        }
        while i < n
            invariant
                n == self.entries@.len(),
                0 <= i <= n,
                slots@ == spec_slots(self.entries@.take(i as int)),
            decreases n - i,
        {
            let pads = &self.entries[i].scratchpad_derivations;
            let m = pads.len();
            let mut j: usize = 0;
            while j < m
                invariant
                    0 <= i < n,
                    n == self.entries@.len(),
                    m == pads@.len(),
                    pads@ == self.entries@[i as int].scratchpad_derivations@,
                    0 <= j <= m,
                    slots@ == spec_slots(self.entries@.take(i as int)) + pads@.take(j as int),
                decreases m - j,
            {
                slots.push(pads[j]);
                proof {
                    assert(pads@.take(j + 1) =~= pads@.take(j as int).push(pads@[j as int]));
                }
                j += 1;
            }
            proof {
                assert(pads@.take(m as int) =~= pads@);
                assert(self.entries@.take(i + 1).drop_last() =~= self.entries@.take(i as int));
                assert(self.entries@.take(i + 1).last() == self.entries@[i as int]);
            }
            i += 1;
        }
        proof {
            assert(self.entries@.take(n as int) =~= self.entries@);
        }
        (next_free, slots)
    }
}

/// Why fetched ledger entries do not form a usable chain.
#[derive(Clone, Copy, PartialEq, Eq, Structural, Debug)]
pub enum VaultChainError {
    /// An entry does not sit at its predecessor's next derivation.
    BrokenChain,
    /// An entry names the wrong count of scratchpad derivations.
    WrongSlotCount,
    /// Two slots share a derivation.
    DuplicateSlot,
}

/// Validates ledger entries fetched by walking the network from the head
/// derivation, and assembles the chain. Succeeds exactly on well-formed
/// input.
pub fn chain_from_entries(head_derivation: u64, entries: Vec<LedgerEntry>) -> (r: Result<
    VaultChain,
    VaultChainError,
>)
    ensures
        match r {
            Ok(chain) => chain.wf() && chain.head_derivation == head_derivation && chain.entries@
                == entries@,
            Err(e) => {
                let c = VaultChain { head_derivation, entries };
                !c.wf()
            },
        },
{
    let n = entries.len();
    // chain shape
    let mut i: usize = 0;
    while i < n
        invariant
            n == entries@.len(),
            0 <= i <= n,
            i > 0 ==> entries@[0].own_derivation == head_derivation,
            forall|k: int|
                0 < k < i ==> (#[trigger] entries@[k]).own_derivation == entries@[k
                    - 1].next_derivation,
        decreases n - i,
    {
        if i == 0 {
            if entries[0].own_derivation != head_derivation {
                return Err(VaultChainError::BrokenChain);
            }
        } else {
            if entries[i].own_derivation != entries[i - 1].next_derivation {
                return Err(VaultChainError::BrokenChain);
            }
        }
        i += 1;
    }
    // slot counts
    let mut i: usize = 0;
    while i < n
        invariant
            n == entries@.len(),
            0 <= i <= n,
            forall|k: int|
                0 <= k < i ==> (#[trigger] entries@[k]).scratchpad_derivations@.len()
                    == SCRATCHPADS_PER_LEDGER_ENTRY,
        decreases n - i,
    {
        if entries[i].scratchpad_derivations.len() != SCRATCHPADS_PER_LEDGER_ENTRY {
            return Err(VaultChainError::WrongSlotCount);
        }
        i += 1;
    }
    let chain = VaultChain { head_derivation, entries };
    let (_, slots) = chain.claimed_capacity();
    if has_duplicate(&slots) {
        return Err(VaultChainError::DuplicateSlot);
    }
    Ok(chain)
}

/// Whether a slot list names any derivation twice.
pub fn has_duplicate(slots: &Vec<u64>) -> (r: bool)
    ensures
        r == !(forall|i: int, j: int|
            0 <= i < j < slots@.len() ==> slots@[i] != slots@[j]),
{
    let n = slots.len();
    let mut i: usize = 0;
    while i < n
        invariant
            n == slots@.len(),
            0 <= i <= n,
            forall|k1: int, k2: int| 0 <= k1 < k2 < slots@.len() && k1 < i ==> slots@[k1] != slots@[k2],
        decreases n - i,
    {
        let mut j: usize = i + 1;
        while j < n
            invariant
                n == slots@.len(),
                0 <= i < n,
                i < j <= n,
                forall|k2: int| (i as int) < k2 < j ==> slots@[i as int] != slots@[k2],
            decreases n - j,
        {
            if slots[i] == slots[j] {
                return true;
            }
            j += 1;
        }
        i += 1;
    }
    false
}

/// The fixed-size segments a blob is split into: every segment but the
/// last holds exactly the record capacity, the last holds the remainder,
/// and an empty blob needs no segments.
pub open spec fn spec_segments(d: Seq<u8>) -> Seq<Seq<u8>>
    decreases d.len(),
{
    if d.len() == 0 {
        Seq::empty()
    } else if d.len() <= SEGMENT_SIZE {
        seq![d]
    } else {
        seq![d.take(SEGMENT_SIZE as int)] + spec_segments(d.skip(SEGMENT_SIZE as int))
    }
}

/// Concatenation of a sequence of byte segments, in order.
pub open spec fn spec_concat(segs: Seq<Seq<u8>>) -> Seq<u8>
    decreases segs.len(),
{
    if segs.len() == 0 {
        Seq::empty()
    } else {
        segs.first() + spec_concat(segs.drop_first())
    }
}

/// Law: splitting a blob into segments loses nothing: concatenating the
/// segments in order gives back the blob.
pub proof fn lemma_segments_concat(d: Seq<u8>)
    ensures
        spec_concat(spec_segments(d)) == d,
    decreases d.len(),
{
    if d.len() == 0 {
        assert(spec_concat(spec_segments(d)) =~= d);
    } else if d.len() <= SEGMENT_SIZE {
        let segs = spec_segments(d);
        assert(segs.drop_first() =~= Seq::<Seq<u8>>::empty());
        assert(spec_concat(Seq::<Seq<u8>>::empty()) == Seq::<u8>::empty());
        assert(segs.first() == d);
        assert(spec_concat(segs) =~= d);
    } else {
        let rest = d.skip(SEGMENT_SIZE as int);
        lemma_segments_concat(rest);
        let segs = spec_segments(d);
        assert(segs.drop_first() =~= spec_segments(rest));
        assert(spec_concat(segs) =~= d.take(SEGMENT_SIZE as int) + spec_concat(
            spec_segments(rest),
        ));
        assert(d.take(SEGMENT_SIZE as int) + rest =~= d);
    }
}

/// Every segment holds at most the record capacity, and only the last
/// segment may hold less.
pub proof fn lemma_segments_sizes(d: Seq<u8>)
    ensures
        forall|i: int|
            0 <= i < spec_segments(d).len() ==> (#[trigger] spec_segments(d)[i]).len()
                <= SEGMENT_SIZE,
        forall|i: int|
            0 <= i < spec_segments(d).len() - 1 ==> (#[trigger] spec_segments(d)[i]).len()
                == SEGMENT_SIZE,
    decreases d.len(),
{
    if d.len() > SEGMENT_SIZE {
        lemma_segments_sizes(d.skip(SEGMENT_SIZE as int));
        let segs = spec_segments(d);
        let rest = spec_segments(d.skip(SEGMENT_SIZE as int));
        assert(forall|i: int| 0 < i < segs.len() ==> segs[i] == rest[i - 1]);
    }
}

/// Splits a blob into fixed-size segments.
pub fn split_into_segments(data: &Vec<u8>) -> (r: Vec<Vec<u8>>)
    ensures
        r.deep_view() == spec_segments(data@),
{
    let mut out: Vec<Vec<u8>> = Vec::new();
    let mut off: usize = 0;
    let n = data.len();
    proof {
        assert(data@.skip(0) =~= data@);
        assert(out.deep_view() + spec_segments(data@.skip(0)) =~= spec_segments(data@));
    }
    while off < n
        invariant
            n == data@.len(),
            0 <= off <= n,
            spec_segments(data@) == out.deep_view() + spec_segments(data@.skip(off as int)),
        decreases n - off,
    {
        let len = if n - off > SEGMENT_SIZE {
            SEGMENT_SIZE
        } else {
            n - off
        };
        let mut seg: Vec<u8> = Vec::new();
        let mut k: usize = 0;
        while k < len
            invariant
                0 <= off,
                off + len <= n,
                n == data@.len(),
                0 <= k <= len,
                seg@ == data@.subrange(off as int, off + k),
            decreases len - k,
        {
            seg.push(data[off + k]);
            proof {
                assert(data@.subrange(off as int, off + k + 1) =~= data@.subrange(
                    off as int,
                    off + k,
                ).push(data@[off + k]));
            }
            k += 1;
        }
        let ghost rest = data@.skip(off as int);
        proof {
            assert(rest.len() == n - off);
            assert(seg@ =~= rest.take(len as int));
        }
        let ghost dv_before = out.deep_view();
        let ghost seg_view = seg@;
        out.push(seg);
        proof {
            if rest.len() > SEGMENT_SIZE {
                assert(spec_segments(rest) == seq![rest.take(SEGMENT_SIZE as int)]
                    + spec_segments(rest.skip(SEGMENT_SIZE as int)));
                assert(rest.skip(SEGMENT_SIZE as int) =~= data@.skip(off + len));
                assert(spec_segments(rest) =~= seq![seg_view] + spec_segments(
                    data@.skip(off + len),
                ));
            } else {
                assert(seg_view =~= rest);
                assert(spec_segments(rest) == seq![rest]);
                assert(data@.skip(off + len) =~= Seq::<u8>::empty());
                assert(spec_segments(Seq::<u8>::empty()) == Seq::<Seq<u8>>::empty());
                assert(spec_segments(rest) =~= seq![seg_view] + spec_segments(
                    data@.skip(off + len),
                ));
            }
            assert(seg.deep_view() =~= seg_view);
            assert forall|t: int| 0 <= t < out.deep_view().len() implies out.deep_view()[t]
                == dv_before.push(seg_view)[t] by {
                if t < dv_before.len() {
                    assert(out@[t] == out@.drop_last()[t]);
                }
            }
            assert(out.deep_view() =~= dv_before.push(seg_view));
            assert(dv_before.push(seg_view) + spec_segments(data@.skip(off + len))
                =~= dv_before + spec_segments(data@.skip(off as int)));
            assert(spec_segments(data@) =~= out.deep_view() + spec_segments(
                data@.skip(off + len),
            ));
        }
        off = off + len;
    }
    proof {
        assert(data@.skip(n as int) =~= Seq::<u8>::empty());
        assert(out.deep_view() =~= spec_segments(data@));
    }
    out
}

/// Segments a blob of the given length needs.
pub open spec fn spec_segment_count(len: int) -> int {
    (len + SEGMENT_SIZE - 1) / (SEGMENT_SIZE as int)
}

/// The number of segments the split yields is the rounded-up quotient.
pub proof fn lemma_segment_count(d: Seq<u8>)
    ensures
        spec_segments(d).len() == spec_segment_count(d.len() as int),
    decreases d.len(),
{
    if d.len() > SEGMENT_SIZE {
        lemma_segment_count(d.skip(SEGMENT_SIZE as int));
    }
}

/// Slot count of a chained entry sequence: each entry names exactly the
/// fixed count of scratchpad derivations.
pub proof fn lemma_slots_len(head: u64, s: Seq<LedgerEntry>)
    requires
        spec_chained(head, s),
    ensures
        spec_slots(s).len() == s.len() * SCRATCHPADS_PER_LEDGER_ENTRY,
    decreases s.len(),
{
    if s.len() > 0 {
        assert(spec_chained(head, s.drop_last())) by {
            assert(forall|i: int| 0 <= i < s.len() - 1 ==> s.drop_last()[i] == s[i]);
        }
        lemma_slots_len(head, s.drop_last());
        assert(s.len() * SCRATCHPADS_PER_LEDGER_ENTRY == (s.len() - 1)
            * SCRATCHPADS_PER_LEDGER_ENTRY + SCRATCHPADS_PER_LEDGER_ENTRY) by (nonlinear_arith);
    }
}

impl VaultChain {
    /// Extends the chain in memory with freshly derived ledger entries
    /// until its capacity covers the needed slot count. Returns the index
    /// at which the appended entries start. Growth is append-only: the
    /// slots already discovered keep their positions, and no more entries
    /// are appended than the need asks for. `None` signals that a freshly
    /// drawn derivation collided with an existing one; the chain is then
    /// still well-formed and append-only but may not reach the needed
    /// capacity, and the quote attempt is abandoned. A collision can only
    /// happen while drawing, and nothing is drawn when the existing
    /// capacity already suffices: growth then succeeds without change.
    pub fn grow(&mut self, needed_slots: usize) -> (r: Option<usize>)
        requires
            old(self).wf(),
            needed_slots <= usize::MAX - SCRATCHPADS_PER_LEDGER_ENTRY,
        ensures
            final(self).wf(),
            final(self).head_derivation == old(self).head_derivation,
            final(self).entries@.len() >= old(self).entries@.len(),
            final(self).entries@.take(old(self).entries@.len() as int) == old(self).entries@,
            final(self).spec_slot_seq().take(old(self).spec_slot_seq().len() as int) == old(
                self,
            ).spec_slot_seq(),
            match r {
                Some(first_new) => {
                    &&& first_new == old(self).entries@.len()
                    &&& final(self).spec_slot_seq().len() >= needed_slots
                    &&& (old(self).spec_slot_seq().len() >= needed_slots ==> final(self).entries@
                        == old(self).entries@)
                    &&& (final(self).entries@.len() > old(self).entries@.len() ==> final(self).spec_slot_seq().len() < needed_slots + SCRATCHPADS_PER_LEDGER_ENTRY)
                },
                None => old(self).spec_slot_seq().len() < needed_slots,
            },
    {
        let first_new = self.entries.len();
        let needed_entries: usize = (needed_slots + SCRATCHPADS_PER_LEDGER_ENTRY - 1)
            / SCRATCHPADS_PER_LEDGER_ENTRY;
        proof {
            lemma_slots_len(self.head_derivation, self.entries@);
            assert(self.entries@.take(first_new as int) =~= self.entries@);
            assert(self.spec_slot_seq().take(self.spec_slot_seq().len() as int)
                =~= self.spec_slot_seq());
        }
        let (mut cur_next, mut slots) = self.claimed_capacity();
        while self.entries.len() < needed_entries
            invariant
                self.wf(),
                self.head_derivation == old(self).head_derivation,
                first_new == old(self).entries@.len(),
                self.entries@.len() >= first_new,
                self.entries@.take(first_new as int) == old(self).entries@,
                self.spec_slot_seq().take(old(self).spec_slot_seq().len() as int) == old(
                    self,
                ).spec_slot_seq(),
                slots@ == self.spec_slot_seq(),
                cur_next == self.spec_next_free(),
                needed_entries == (needed_slots + SCRATCHPADS_PER_LEDGER_ENTRY - 1) as int
                    / SCRATCHPADS_PER_LEDGER_ENTRY as int,
                needed_slots <= usize::MAX - SCRATCHPADS_PER_LEDGER_ENTRY,
                old(self).entries@.len() >= needed_entries ==> self.entries@ == old(
                    self,
                ).entries@,
                self.entries@.len() > first_new ==> self.entries@.len() <= needed_entries,
            decreases needed_entries - self.entries@.len(),
        {
            let own = cur_next;
            let next = crate::random::random_u64();
            let mut pads: Vec<u64> = Vec::new();
            let ghost slots_before = slots@;
            proof {
                lemma_slots_len(self.head_derivation, self.entries@);
                let len = self.entries@.len() as int;
                assert(slots_before.len() + SCRATCHPADS_PER_LEDGER_ENTRY <= usize::MAX)
                    by (nonlinear_arith)
                    requires
                        slots_before.len() == len * SCRATCHPADS_PER_LEDGER_ENTRY,
                        len < needed_entries,
                        needed_entries == (needed_slots + SCRATCHPADS_PER_LEDGER_ENTRY - 1) as int
                            / SCRATCHPADS_PER_LEDGER_ENTRY as int,
                        needed_slots <= usize::MAX - SCRATCHPADS_PER_LEDGER_ENTRY,
                        SCRATCHPADS_PER_LEDGER_ENTRY == 4,
                ;
                lemma_slots_len(old(self).head_derivation, old(self).entries@);
                let old_len = old(self).entries@.len() as int;
                let old_cap = old(self).spec_slot_seq().len() as int;
                assert(old_cap <= slots_before.len()) by (nonlinear_arith)
                    requires
                        slots_before.len() == len * SCRATCHPADS_PER_LEDGER_ENTRY,
                        old_cap == old_len * SCRATCHPADS_PER_LEDGER_ENTRY,
                        old_len <= len,
                        SCRATCHPADS_PER_LEDGER_ENTRY == 4,
                ;
            }
            let mut k: usize = 0;
            while k < SCRATCHPADS_PER_LEDGER_ENTRY
                invariant
                    self.wf(),
                    self.head_derivation == old(self).head_derivation,
                    first_new == old(self).entries@.len(),
                    self.entries@.len() >= first_new,
                    self.entries@.len() < needed_entries,
                    self.entries@.take(first_new as int) == old(self).entries@,
                    self.spec_slot_seq().take(old(self).spec_slot_seq().len() as int) == old(
                        self,
                    ).spec_slot_seq(),
                    slots_before == self.spec_slot_seq(),
                    old(self).spec_slot_seq().len() <= slots_before.len(),
                    cur_next == self.spec_next_free(),
                    needed_entries == (needed_slots + SCRATCHPADS_PER_LEDGER_ENTRY - 1) as int
                        / SCRATCHPADS_PER_LEDGER_ENTRY as int,
                    old(self).entries@.len() >= needed_entries ==> self.entries@ == old(
                        self,
                    ).entries@,
                    0 <= k <= SCRATCHPADS_PER_LEDGER_ENTRY,
                    pads@.len() == k,
                    slots@ == slots_before + pads@,
                    slots@.len() == slots_before.len() + k,
                    slots_before.len() + SCRATCHPADS_PER_LEDGER_ENTRY <= usize::MAX,
                    forall|i: int, j: int| 0 <= i < j < slots@.len() ==> slots@[i] != slots@[j],
                decreases SCRATCHPADS_PER_LEDGER_ENTRY - k,
            {
                let pad = crate::random::random_u64();
                if contains_u64(&slots, pad) {
                    proof {
                        lemma_slots_len(old(self).head_derivation, old(self).entries@);
                        let old_len = old(self).entries@.len() as int;
                        let old_cap = old(self).spec_slot_seq().len() as int;
                        if old_cap >= needed_slots {
                            assert(old_len >= needed_entries) by (nonlinear_arith)
                                requires
                                    old_cap == old_len * SCRATCHPADS_PER_LEDGER_ENTRY,
                                    old_cap >= needed_slots,
                                    needed_entries == (needed_slots
                                        + SCRATCHPADS_PER_LEDGER_ENTRY - 1) as int
                                        / SCRATCHPADS_PER_LEDGER_ENTRY as int,
                                    SCRATCHPADS_PER_LEDGER_ENTRY == 4,
                            ;
                            assert(self.entries@ == old(self).entries@);
                            assert(false);
                        }
                    }
                    return None;
                }
                let ghost slots_old = slots@;
                slots.push(pad);
                pads.push(pad);
                proof {
                    assert forall|i: int, j: int|
                        0 <= i < j < slots@.len() implies slots@[i] != slots@[j] by {
                        if j == slots@.len() - 1 {
                            assert(!slots_old.contains(pad));
                            assert(slots_old[i] == slots@[i]);
                        }
                    }
                    assert(slots@ =~= slots_before + pads@);
                }
                k += 1;
            }
            let entry = LedgerEntry {
                own_derivation: own,
                next_derivation: next,
                scratchpad_derivations: pads,
            };
            let ghost entries_before = self.entries@;
            let ghost pads_view = entry.scratchpad_derivations@;
            self.entries.push(entry);
            cur_next = next;
            proof {
                assert(self.entries@.drop_last() =~= entries_before);
                assert(self.entries@.last().scratchpad_derivations@ == pads_view);
                assert(spec_slots(self.entries@) == spec_slots(entries_before) + pads_view);
                assert(slots@ =~= spec_slots(self.entries@));
                assert(self.entries@.take(first_new as int) =~= entries_before.take(
                    first_new as int,
                ));
                assert forall|i: int|
                    0 < i < self.entries@.len() implies (
                #[trigger] self.entries@[i]).own_derivation == self.entries@[i
                    - 1].next_derivation by {
                    if i < self.entries@.len() - 1 {
                        assert(entries_before[i].own_derivation == entries_before[i
                            - 1].next_derivation);
                    }
                }
                assert(spec_chained(self.head_derivation, self.entries@));
                let old_cap = old(self).spec_slot_seq().len() as int;
                assert((slots_before + pads_view).take(old_cap) =~= slots_before.take(old_cap));
                assert(self.spec_slot_seq().take(old_cap) == old(self).spec_slot_seq());
            }
        }
        proof {
            lemma_slots_len(self.head_derivation, self.entries@);
            assert(self.entries@.len() >= needed_entries);
            assert(self.spec_slot_seq().len() >= needed_slots) by (nonlinear_arith)
                requires
                    self.spec_slot_seq().len() == self.entries@.len()
                        * SCRATCHPADS_PER_LEDGER_ENTRY,
                    self.entries@.len() >= needed_entries,
                    needed_entries == (needed_slots + SCRATCHPADS_PER_LEDGER_ENTRY - 1) as int
                        / SCRATCHPADS_PER_LEDGER_ENTRY as int,
                    SCRATCHPADS_PER_LEDGER_ENTRY == 4,
            ;
            if self.entries@.len() > first_new {
                assert(self.spec_slot_seq().len() < needed_slots + SCRATCHPADS_PER_LEDGER_ENTRY)
                    by (nonlinear_arith)
                    requires
                        self.spec_slot_seq().len() == self.entries@.len()
                            * SCRATCHPADS_PER_LEDGER_ENTRY,
                        self.entries@.len() <= needed_entries,
                        needed_entries == (needed_slots + SCRATCHPADS_PER_LEDGER_ENTRY - 1) as int
                            / SCRATCHPADS_PER_LEDGER_ENTRY as int,
                        SCRATCHPADS_PER_LEDGER_ENTRY == 4,
                ;
            }
            if old(self).spec_slot_seq().len() >= needed_slots {
                lemma_slots_len(old(self).head_derivation, old(self).entries@);
                let old_cap = old(self).spec_slot_seq().len() as int;
                let old_len = old(self).entries@.len() as int;
                assert(old_len >= needed_entries) by (nonlinear_arith)
                    requires
                        old_cap == old_len * SCRATCHPADS_PER_LEDGER_ENTRY,
                        old_cap >= needed_slots,
                        needed_entries == (needed_slots + SCRATCHPADS_PER_LEDGER_ENTRY - 1) as int
                            / SCRATCHPADS_PER_LEDGER_ENTRY as int,
                        SCRATCHPADS_PER_LEDGER_ENTRY == 4,
                ;
            }
        }
        Some(first_new)
    }
}

/// Whether a slot list already names this derivation.
pub fn contains_u64(slots: &Vec<u64>, x: u64) -> (r: bool)
    ensures
        r == slots@.contains(x),
{
    let n = slots.len();
    let mut i: usize = 0;
    while i < n
        invariant
            n == slots@.len(),
            0 <= i <= n,
            forall|k: int| 0 <= k < i ==> slots@[k] != x,
        decreases n - i,
    {
        if slots[i] == x {
            return true;
        }
        i += 1;
    }
    false
}

/// The discovered topology of one vault quote: the chain as extended in
/// memory, the index of the first entry appended during this quote, and
/// the number of segments the data needs. The commit reuses this value
/// verbatim; re-deriving the randomness at commit time would write a
/// different set of addresses than the one quoted.
pub struct VaultQuotePlan {
    pub chain: VaultChain,
    pub first_new_entry: usize,
    pub segment_count: usize,
}

impl VaultQuotePlan {
    pub open spec fn wf(&self) -> bool {
        &&& self.chain.wf()
        &&& self.first_new_entry <= self.chain.entries@.len()
        &&& self.segment_count <= self.chain.spec_slot_seq().len()
    }

    /// The ledger entries appended during the quote, in chain order.
    pub open spec fn spec_new_entries(&self) -> Seq<LedgerEntry> {
        self.chain.entries@.skip(self.first_new_entry as int)
    }
}

/// Walks and extends the chain in memory only, capturing the topology a
/// commit must reuse. The capacity after growth covers the data; nothing
/// is written anywhere. `None` signals a collision among freshly drawn
/// derivations, and the quote attempt is abandoned.
pub fn vault_quote(chain: VaultChain, data: &Vec<u8>) -> (r: Option<VaultQuotePlan>)
    requires
        chain.wf(),
    ensures
        match r {
            Some(plan) => {
                &&& plan.wf()
                &&& plan.chain.head_derivation == chain.head_derivation
                &&& plan.first_new_entry == chain.entries@.len()
                &&& plan.chain.entries@.take(chain.entries@.len() as int) == chain.entries@
                &&& plan.chain.spec_slot_seq().take(chain.spec_slot_seq().len() as int)
                    == chain.spec_slot_seq()
                &&& plan.segment_count == spec_segment_count(data@.len() as int)
                &&& plan.segment_count <= plan.chain.spec_slot_seq().len()
                &&& (chain.spec_slot_seq().len() >= plan.segment_count ==> plan.chain.entries@
                    == chain.entries@)
                &&& (plan.first_new_entry < plan.chain.entries@.len()
                    ==> plan.chain.spec_slot_seq().len() < plan.segment_count
                    + SCRATCHPADS_PER_LEDGER_ENTRY)
            },
            None => chain.spec_slot_seq().len() < spec_segment_count(data@.len() as int),
        },
{
    let needed: usize = if data.len() == 0 {
        0
    } else {
        (data.len() - 1) / SEGMENT_SIZE + 1
    };
    proof {
        assert(needed == spec_segment_count(data@.len() as int)) by (nonlinear_arith)
            requires
                needed == (if data@.len() == 0 {
                    0int
                } else {
                    (data@.len() - 1) / (SEGMENT_SIZE as int) + 1
                }),
                SEGMENT_SIZE == 4096,
        ;
        assert(needed <= usize::MAX - SCRATCHPADS_PER_LEDGER_ENTRY) by (nonlinear_arith)
            requires
                needed == (if data@.len() == 0 {
                    0int
                } else {
                    (data@.len() - 1) / (SEGMENT_SIZE as int) + 1
                }),
                SEGMENT_SIZE == 4096,
                SCRATCHPADS_PER_LEDGER_ENTRY == 4,
                data@.len() <= usize::MAX,
                usize::MAX >= 65535,
        ;
    }
    let mut chain = chain;
    let first_new = match chain.grow(needed) {
        Some(first_new) => first_new,
        None => {
            return None;
        },
    };
    Some(VaultQuotePlan { chain, first_new_entry: first_new, segment_count: needed })
}

/// The own derivations of the entries appended during a quote: every one
/// is a new record and must be paid for.
pub open spec fn spec_new_entry_addrs(new_entries: Seq<LedgerEntry>) -> Seq<u64> {
    new_entries.map_values(|e: LedgerEntry| e.own_derivation)
}

/// The slots among the first `existence.len()` whose scratchpad does not
/// yet exist on the network, in slot order: these must be paid for;
/// existing scratchpads are updated in place for free.
pub open spec fn spec_unpaid_slots(slots: Seq<u64>, existence: Seq<bool>) -> Seq<u64>
    decreases existence.len(),
{
    if existence.len() == 0 {
        Seq::empty()
    } else {
        spec_unpaid_slots(slots, existence.drop_last()) + (if existence.last() {
            Seq::empty()
        } else {
            seq![slots[existence.len() - 1]]
        })
    }
}

/// The addresses a quoted vault write must pay for: every ledger entry
/// appended during the quote, and every assigned slot whose scratchpad
/// does not already exist. `existence[i]` reports whether segment `i`'s
/// scratchpad already exists on the network.
pub fn addresses_to_pay(plan: &VaultQuotePlan, existence: &Vec<bool>) -> (r: Vec<u64>)
    requires
        plan.wf(),
        existence@.len() == plan.segment_count,
    ensures
        r@ == spec_new_entry_addrs(plan.spec_new_entries()) + spec_unpaid_slots(
            plan.chain.spec_slot_seq(),
            existence@,
        ),
{
    let mut out: Vec<u64> = Vec::new();
    let n = plan.chain.entries.len();
    let mut i: usize = plan.first_new_entry;
    let ghost new_entries = plan.spec_new_entries();
    proof {
        assert(new_entries.take(0) =~= Seq::<LedgerEntry>::empty());
        assert(spec_new_entry_addrs(new_entries.take(0)) =~= Seq::<u64>::empty());
        assert(out@ =~= spec_new_entry_addrs(new_entries.take(0)));
    }
    while i < n
        invariant
            n == plan.chain.entries@.len(),
            plan.first_new_entry <= i <= n,
            new_entries == plan.spec_new_entries(),
            out@ == spec_new_entry_addrs(new_entries.take(i - plan.first_new_entry)),
        decreases n - i,
    {
        out.push(plan.chain.entries[i].own_derivation);
        proof {
            let t = i - plan.first_new_entry;
            assert(new_entries.take(t + 1) =~= new_entries.take(t).push(new_entries[t]));
            assert(spec_new_entry_addrs(new_entries.take(t + 1)) =~= spec_new_entry_addrs(
                new_entries.take(t),
            ).push(new_entries[t].own_derivation));
            assert(new_entries[t] == plan.chain.entries@[i as int]);
        }
        i += 1;
    }
    proof {
        assert(new_entries.take(n - plan.first_new_entry) =~= new_entries);
    }
    let (_, slots) = plan.chain.claimed_capacity();
    let m = existence.len();
    let ghost lead = out@;
    let mut j: usize = 0;
    proof {
        assert(existence@.take(0) =~= Seq::<bool>::empty());
        assert(spec_unpaid_slots(slots@, existence@.take(0)) =~= Seq::<u64>::empty());
    }
    while j < m
        invariant
            m == existence@.len(),
            m <= slots@.len(),
            slots@ == plan.chain.spec_slot_seq(),
            0 <= j <= m,
            out@ == lead + spec_unpaid_slots(slots@, existence@.take(j as int)),
        decreases m - j,
    {
        proof {
            assert(existence@.take(j + 1).drop_last() =~= existence@.take(j as int));
            assert(existence@.take(j + 1).last() == existence@[j as int]);
        }
        if !existence[j] {
            out.push(slots[j]);
        }
        proof {
            assert(out@ =~= lead + spec_unpaid_slots(slots@, existence@.take(j + 1)));
        }
        j += 1;
    }
    proof {
        assert(existence@.take(m as int) =~= existence@);
    }
    out
}

/// Why a vault commit is refused: a scratchpad that must be created is not
/// covered by the receipt. Quote and commit then disagree on what was paid
/// for, a fatal internal inconsistency, not a retryable error.
#[derive(Clone, Copy, PartialEq, Eq, Structural, Debug)]
pub enum VaultCommitError {
    ReceiptIncomplete { derivation: u64 },
}

/// One network write of a vault commit, in commit order.
pub enum VaultWriteAction {
    /// Append one planned ledger entry, paid through the receipt.
    PutLedgerEntry { derivation: u64 },
    /// Overwrite an existing scratchpad in place, for free.
    UpdateScratchpad { derivation: u64, content: Vec<u8> },
    /// Create a scratchpad, paid through the receipt.
    CreateScratchpad { derivation: u64, content: Vec<u8> },
}

/// The mathematical shape of one write.
pub enum SpecWriteOp {
    Ledger { derivation: u64 },
    Update { derivation: u64, content: Seq<u8> },
    Create { derivation: u64, content: Seq<u8> },
}

/// The shape of an executable write action.
pub open spec fn action_op(a: VaultWriteAction) -> SpecWriteOp {
    match a {
        VaultWriteAction::PutLedgerEntry { derivation } => SpecWriteOp::Ledger { derivation },
        VaultWriteAction::UpdateScratchpad { derivation, content } => SpecWriteOp::Update {
            derivation,
            content: content@,
        },
        VaultWriteAction::CreateScratchpad { derivation, content } => SpecWriteOp::Create {
            derivation,
            content: content@,
        },
    }
}

/// The ledger-entry writes a commit opens with: one per entry appended
/// during the quote, in chain order.
pub open spec fn spec_ledger_ops(new_entries: Seq<LedgerEntry>) -> Seq<SpecWriteOp> {
    new_entries.map_values(|e: LedgerEntry| SpecWriteOp::Ledger { derivation: e.own_derivation })
}

/// The scratchpad writes of a commit: segment `i` goes to slot `i`, as an
/// in-place update where the scratchpad exists and as a creation where it
/// does not.
pub open spec fn spec_scratchpad_ops(
    slots: Seq<u64>,
    segments: Seq<Seq<u8>>,
    existence: Seq<bool>,
) -> Seq<SpecWriteOp>
    decreases segments.len(),
{
    if segments.len() == 0 {
        Seq::empty()
    } else {
        spec_scratchpad_ops(slots, segments.drop_last(), existence.drop_last()).push(
            if existence[segments.len() - 1] {
                SpecWriteOp::Update {
                    derivation: slots[segments.len() - 1],
                    content: segments.last(),
                }
            } else {
                SpecWriteOp::Create {
                    derivation: slots[segments.len() - 1],
                    content: segments.last(),
                }
            },
        )
    }
}

/// Commits a quoted vault write: produces the ordered network writes that
/// persist the data under the quoted topology, consuming the receipt as
/// payment proof. Every planned ledger entry is appended first; then each
/// data segment goes to its assigned slot in discovery order, overwritten
/// in place where the scratchpad exists and created where it does not.
/// Refused exactly when some scratchpad that must be created is not
/// covered by the receipt.
pub fn vault_update(
    data: &Vec<u8>,
    receipt: &Receipt,
    plan: &VaultQuotePlan,
    existence: &Vec<bool>,
) -> (r: Result<Vec<VaultWriteAction>, VaultCommitError>)
    requires
        plan.wf(),
        plan.segment_count == spec_segment_count(data@.len() as int),
        existence@.len() == plan.segment_count,
    ensures
        match r {
            Ok(actions) => {
                &&& actions@.map_values(|a: VaultWriteAction| action_op(a)) == spec_ledger_ops(
                    plan.spec_new_entries(),
                ) + spec_scratchpad_ops(
                    plan.chain.spec_slot_seq(),
                    spec_segments(data@),
                    existence@,
                )
                &&& forall|i: int|
                    0 <= i < existence@.len() && !existence@[i]
                        ==> receipt@.dom().contains(#[trigger] plan.chain.spec_slot_seq()[i])
            },
            Err(e) => exists|i: int|
                0 <= i < existence@.len() && !existence@[i] && !receipt@.dom().contains(
                    #[trigger] plan.chain.spec_slot_seq()[i],
                ) && e == (VaultCommitError::ReceiptIncomplete {
                    derivation: plan.chain.spec_slot_seq()[i],
                }),
        },
{
    let ghost slot_seq = plan.chain.spec_slot_seq();
    let (_, slots) = plan.chain.claimed_capacity();
    let m = existence.len();
    // every scratchpad that must be created must be covered by the receipt
    let mut j: usize = 0;
    while j < m
        invariant
            m == existence@.len(),
            m <= slots@.len(),
            slots@ == slot_seq,
            slot_seq == plan.chain.spec_slot_seq(),
            0 <= j <= m,
            forall|k: int|
                0 <= k < j && !existence@[k] ==> receipt@.dom().contains(#[trigger] slot_seq[k]),
        decreases m - j,
    {
        if !existence[j] {
            if !receipt.contains_key(slots[j]) {
                proof {
                    assert(0 <= j < existence@.len() && !existence@[j as int]
                        && !receipt@.dom().contains(plan.chain.spec_slot_seq()[j as int]));
                }
                return Err(VaultCommitError::ReceiptIncomplete { derivation: slots[j] });
            }
        }
        j += 1;
    }
    let mut actions: Vec<VaultWriteAction> = Vec::new();
    // planned ledger entries first, in chain order
    let n = plan.chain.entries.len();
    let ghost new_entries = plan.spec_new_entries();
    let mut i: usize = plan.first_new_entry;
    proof {
        assert(new_entries.take(0) =~= Seq::<LedgerEntry>::empty());
        assert(actions@.map_values(|a: VaultWriteAction| action_op(a)) =~= spec_ledger_ops(
            new_entries.take(0),
        ));
    }
    while i < n
        invariant
            n == plan.chain.entries@.len(),
            plan.first_new_entry <= i <= n,
            new_entries == plan.spec_new_entries(),
            actions@.map_values(|a: VaultWriteAction| action_op(a)) == spec_ledger_ops(
                new_entries.take(i - plan.first_new_entry),
            ),
        decreases n - i,
    {
        let ghost before = actions@;
        actions.push(
            VaultWriteAction::PutLedgerEntry {
                derivation: plan.chain.entries[i].own_derivation,
            },
        );
        proof {
            let t = i - plan.first_new_entry;
            assert(actions@.map_values(|a: VaultWriteAction| action_op(a)) =~= before.map_values(
                |a: VaultWriteAction| action_op(a),
            ).push(action_op(actions@.last())));
            assert(new_entries.take(t + 1) =~= new_entries.take(t).push(new_entries[t]));
            assert(spec_ledger_ops(new_entries.take(t + 1)) =~= spec_ledger_ops(
                new_entries.take(t),
            ).push(SpecWriteOp::Ledger { derivation: new_entries[t].own_derivation }));
            assert(new_entries[t] == plan.chain.entries@[i as int]);
        }
        i += 1;
    }
    proof {
        assert(new_entries.take(n - plan.first_new_entry) =~= new_entries);
    }
    let ghost lead = actions@.map_values(|a: VaultWriteAction| action_op(a));
    // then each segment to its slot, in discovery order
    let mut segments = split_into_segments(data);
    proof {
        lemma_segment_count(data@);
        assert(segments.deep_view().len() == m);
    }
    let ghost all_segments = segments.deep_view();
    let mut j: usize = 0;
    proof {
        assert(spec_scratchpad_ops(slot_seq, all_segments.take(0), existence@.take(0))
            =~= Seq::<SpecWriteOp>::empty());
    }
    while j < m
        invariant
            m == existence@.len(),
            m <= slot_seq.len(),
            m == all_segments.len(),
            slots@ == slot_seq,
            slot_seq == plan.chain.spec_slot_seq(),
            segments.deep_view() == all_segments.skip(j as int),
            0 <= j <= m,
            actions@.map_values(|a: VaultWriteAction| action_op(a)) == lead
                + spec_scratchpad_ops(slot_seq, all_segments.take(j as int), existence@.take(j as int)),
        decreases m - j,
    {
        proof {
            assert(all_segments.skip(j as int).len() == m - j);
        }
        let ghost dv_before = segments.deep_view();
        let ghost segs_before = segments@;
        let seg = segments.remove(0);
        proof {
            assert(segments@ == segs_before.remove(0));
            assert(seg == segs_before[0]);
            assert(seg@ == dv_before[0]);
            assert(seg@ == all_segments[j as int]);
            assert forall|t: int|
                0 <= t < segments.deep_view().len() implies segments.deep_view()[t]
                == all_segments.skip(j + 1)[t] by {
                assert(segments@[t] == segs_before[t + 1]);
                assert(dv_before[t + 1] == all_segments.skip(j as int)[t + 1]);
            }
            assert(segments.deep_view() =~= all_segments.skip(j + 1));
        }
        let ghost before = actions@;
        if existence[j] {
            actions.push(VaultWriteAction::UpdateScratchpad { derivation: slots[j], content: seg });
        } else {
            actions.push(VaultWriteAction::CreateScratchpad { derivation: slots[j], content: seg });
        }
        proof {
            assert(actions@.map_values(|a: VaultWriteAction| action_op(a)) =~= before.map_values(
                |a: VaultWriteAction| action_op(a),
            ).push(action_op(actions@.last())));
            assert(all_segments.take(j + 1).drop_last() =~= all_segments.take(j as int));
            assert(existence@.take(j + 1).drop_last() =~= existence@.take(j as int));
            assert(all_segments.take(j + 1).last() == all_segments[j as int]);
            assert(actions@.map_values(|a: VaultWriteAction| action_op(a)) =~= lead
                + spec_scratchpad_ops(
                slot_seq,
                all_segments.take(j + 1),
                existence@.take(j + 1),
            ));
        }
        j += 1;
    }
    proof {
        assert(all_segments.take(m as int) =~= all_segments);
        assert(existence@.take(m as int) =~= existence@);
        assert(all_segments == spec_segments(data@));
    }
    Ok(actions)
}

/// One write applied to the scratchpad store: ledger-entry writes do not
/// touch scratchpad contents; scratchpad writes set the record.
pub open spec fn apply_one(store: Map<u64, Seq<u8>>, op: SpecWriteOp) -> Map<u64, Seq<u8>> {
    match op {
        SpecWriteOp::Ledger { derivation } => store,
        SpecWriteOp::Update { derivation, content } => store.insert(derivation, content),
        SpecWriteOp::Create { derivation, content } => store.insert(derivation, content),
    }
}

/// A sequence of writes applied to the scratchpad store, in order.
pub open spec fn apply_ops(store: Map<u64, Seq<u8>>, ops: Seq<SpecWriteOp>) -> Map<u64, Seq<u8>>
    decreases ops.len(),
{
    if ops.len() == 0 {
        store
    } else {
        apply_ops(apply_one(store, ops.first()), ops.drop_first())
    }
}

pub proof fn lemma_apply_ops_concat(store: Map<u64, Seq<u8>>, a: Seq<SpecWriteOp>, b: Seq<
    SpecWriteOp,
>)
    ensures
        apply_ops(store, a + b) == apply_ops(apply_ops(store, a), b),
    decreases a.len(),
{
    if a.len() == 0 {
        assert(a + b =~= b);
    } else {
        assert((a + b).first() == a.first());
        assert((a + b).drop_first() =~= a.drop_first() + b);
        lemma_apply_ops_concat(apply_one(store, a.first()), a.drop_first(), b);
    }
}

/// Ledger-entry writes leave the scratchpad store untouched.
pub proof fn lemma_apply_ledger_ops(store: Map<u64, Seq<u8>>, entries: Seq<LedgerEntry>)
    ensures
        apply_ops(store, spec_ledger_ops(entries)) == store,
    decreases entries.len(),
{
    let ops = spec_ledger_ops(entries);
    if entries.len() > 0 {
        assert(ops.drop_first() =~= spec_ledger_ops(entries.drop_first()));
        lemma_apply_ledger_ops(store, entries.drop_first());
    }
}

/// After the scratchpad writes of a commit, slot `i` holds segment `i`,
/// for every assigned slot: slots are pairwise distinct, so later writes
/// do not disturb earlier ones.
pub proof fn lemma_scratchpad_ops_store(
    store: Map<u64, Seq<u8>>,
    slots: Seq<u64>,
    segments: Seq<Seq<u8>>,
    existence: Seq<bool>,
)
    requires
        segments.len() <= slots.len(),
        existence.len() == segments.len(),
        forall|i: int, j: int| 0 <= i < j < slots.len() ==> slots[i] != slots[j],
    ensures
        forall|i: int|
            0 <= i < segments.len() ==> {
                let after = apply_ops(store, spec_scratchpad_ops(slots, segments, existence));
                after.dom().contains(#[trigger] slots[i]) && after[slots[i]] == segments[i]
            },
    decreases segments.len(),
{
    if segments.len() > 0 {
        let n = segments.len();
        let ops = spec_scratchpad_ops(slots, segments, existence);
        let front = spec_scratchpad_ops(slots, segments.drop_last(), existence.drop_last());
        let last_op = if existence[n - 1] {
            SpecWriteOp::Update { derivation: slots[n - 1], content: segments.last() }
        } else {
            SpecWriteOp::Create { derivation: slots[n - 1], content: segments.last() }
        };
        assert(ops =~= front + seq![last_op]);
        lemma_apply_ops_concat(store, front, seq![last_op]);
        lemma_scratchpad_ops_store(store, slots, segments.drop_last(), existence.drop_last());
        let mid = apply_ops(store, front);
        assert(apply_ops(mid, seq![last_op]) == apply_one(mid, last_op)) by {
            assert(seq![last_op].first() == last_op);
            assert(seq![last_op].drop_first() =~= Seq::<SpecWriteOp>::empty());
            assert(apply_ops(apply_one(mid, last_op), Seq::<SpecWriteOp>::empty()) == apply_one(
                mid,
                last_op,
            ));
        }
        let after = apply_ops(store, ops);
        assert(after == mid.insert(slots[n - 1], segments.last()));
        assert forall|i: int|
            0 <= i < segments.len() implies after.dom().contains(#[trigger] slots[i])
            && after[slots[i]] == segments[i] by {
            if i < n - 1 {
                assert(slots[i] != slots[n - 1]);
                assert(segments.drop_last()[i] == segments[i]);
            }
        }
    }
}

/// Concatenating segments from the far end: the concatenation of a
/// nonempty segment list is the concatenation of all but the last segment,
/// followed by the last segment.
pub proof fn lemma_concat_last(segs: Seq<Seq<u8>>)
    requires
        segs.len() > 0,
    ensures
        spec_concat(segs) == spec_concat(segs.drop_last()) + segs.last(),
    decreases segs.len(),
{
    if segs.len() == 1 {
        assert(segs.drop_last() =~= Seq::<Seq<u8>>::empty());
        assert(segs.drop_first() =~= Seq::<Seq<u8>>::empty());
        assert(spec_concat(segs) =~= spec_concat(segs.drop_last()) + segs.last());
    } else {
        lemma_concat_last(segs.drop_first());
        assert(segs.drop_first().drop_last() =~= segs.drop_last().drop_first());
        assert(segs.drop_first().last() == segs.last());
        assert(segs.drop_last().first() == segs.first());
        assert(spec_concat(segs.drop_last()) == segs.first() + spec_concat(
            segs.drop_last().drop_first(),
        ));
        assert(spec_concat(segs) =~= spec_concat(segs.drop_last()) + segs.last());
    }
}

/// Reading the first `n` slots of the store, in discovery order.
pub open spec fn read_segments(store: Map<u64, Seq<u8>>, slots: Seq<u64>, n: int) -> Seq<u8>
    decreases n,
{
    if n <= 0 {
        Seq::empty()
    } else {
        read_segments(store, slots, n - 1) + store[slots[n - 1]]
    }
}

proof fn lemma_read_matches_concat(
    store: Map<u64, Seq<u8>>,
    slots: Seq<u64>,
    segments: Seq<Seq<u8>>,
)
    requires
        segments.len() <= slots.len(),
        forall|i: int|
            0 <= i < segments.len() ==> store.dom().contains(#[trigger] slots[i]) && store[slots[i]]
                == segments[i],
    ensures
        read_segments(store, slots, segments.len() as int) == spec_concat(segments),
    decreases segments.len(),
{
    if segments.len() > 0 {
        assert(forall|i: int|
            0 <= i < segments.drop_last().len() ==> segments.drop_last()[i] == segments[i]);
        lemma_read_matches_concat(store, slots, segments.drop_last());
        lemma_concat_last(segments);
    } else {
        assert(spec_concat(segments) =~= Seq::<u8>::empty());
    }
}

/// Law: the vault round trip. Committing data under a quoted topology and
/// then re-reading the chain's slots from the head, in discovery order,
/// reproduces the data exactly, whatever the store held before and
/// whichever scratchpads already existed.
pub proof fn lemma_vault_round_trip(
    store: Map<u64, Seq<u8>>,
    data: Seq<u8>,
    new_entries: Seq<LedgerEntry>,
    slots: Seq<u64>,
    existence: Seq<bool>,
)
    requires
        spec_segments(data).len() <= slots.len(),
        existence.len() == spec_segments(data).len(),
        forall|i: int, j: int| 0 <= i < j < slots.len() ==> slots[i] != slots[j],
    ensures
        read_segments(
            apply_ops(
                store,
                spec_ledger_ops(new_entries) + spec_scratchpad_ops(
                    slots,
                    spec_segments(data),
                    existence,
                ),
            ),
            slots,
            spec_segments(data).len() as int,
        ) == data,
{
    let segments = spec_segments(data);
    let lead = spec_ledger_ops(new_entries);
    let scratch = spec_scratchpad_ops(slots, segments, existence);
    lemma_apply_ops_concat(store, lead, scratch);
    lemma_apply_ledger_ops(store, new_entries);
    lemma_scratchpad_ops_store(store, slots, segments, existence);
    let after = apply_ops(store, lead + scratch);
    lemma_read_matches_concat(after, slots, segments);
    lemma_segments_concat(data);
}

} // verus!
