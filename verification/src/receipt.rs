//! Payment receipts: proof-of-payment per content address, together with
//! coverage validation and merging.
//!
//! A receipt maps each paid content address to the payments that settled it
//! and the total amount paid. A receipt authorizes writing exactly the
//! addresses in its domain.

use vstd::prelude::*;

use crate::types::{Addr, Amount, Payment};

verus! {

/// One receipt entry: the proof (the payments that settled the address) and
/// the total amount paid for it.
#[derive(Clone)]
pub struct ReceiptEntry {
    pub addr: Addr,
    pub proof: Vec<Payment>,
    pub amount: Amount,
}

/// The entries of a receipt hold pairwise distinct addresses.
pub open spec fn wf_entries(s: Seq<ReceiptEntry>) -> bool {
    forall|i: int, j: int| 0 <= i < j < s.len() ==> s[i].addr != s[j].addr
}

/// The mapping a sequence of entries denotes: address to (proof, amount),
/// later entries winning on collision.
pub open spec fn entries_map(s: Seq<ReceiptEntry>) -> Map<Addr, (Seq<Payment>, Amount)>
    decreases s.len(),
{
    if s.len() == 0 {
        Map::empty()
    } else {
        entries_map(s.drop_last()).insert(s.last().addr, (s.last().proof@, s.last().amount))
    }
}

pub proof fn lemma_entries_map_dom(s: Seq<ReceiptEntry>, a: Addr)
    ensures
        entries_map(s).dom().contains(a) <==> exists|i: int| 0 <= i < s.len() && s[i].addr == a,
    decreases s.len(),
{
    if s.len() > 0 {
        lemma_entries_map_dom(s.drop_last(), a);
        if s.last().addr == a {
            assert(s[s.len() - 1].addr == a);
        } else if entries_map(s.drop_last()).dom().contains(a) {
            let i = choose|i: int| 0 <= i < s.drop_last().len() && s.drop_last()[i].addr == a;
            assert(s[i].addr == a);
        } else if exists|i: int| 0 <= i < s.len() && s[i].addr == a {
            let i = choose|i: int| 0 <= i < s.len() && s[i].addr == a;
            assert(s.drop_last()[i].addr == a);
        }
    }
}

pub proof fn lemma_entries_map_at(s: Seq<ReceiptEntry>, i: int)
    requires
        wf_entries(s),
        0 <= i < s.len(),
    ensures
        entries_map(s).dom().contains(s[i].addr),
        entries_map(s)[s[i].addr] == (s[i].proof@, s[i].amount),
    decreases s.len(),
{
    if i == s.len() - 1 {
    } else {
        assert(s.drop_last()[i] == s[i]);
        lemma_entries_map_at(s.drop_last(), i);
        assert(s[i].addr != s.last().addr);
    }
}

/// Finalized proof-of-payment per content address; authorizes writing those
/// addresses.
pub struct Receipt {
    pub entries: Vec<ReceiptEntry>,
}

impl View for Receipt {
    type V = Map<Addr, (Seq<Payment>, Amount)>;

    open spec fn view(&self) -> Map<Addr, (Seq<Payment>, Amount)> {
        entries_map(self.entries@)
    }
}

impl Receipt {
    /// Entries hold pairwise distinct addresses.
    pub open spec fn wf(&self) -> bool {
        wf_entries(self.entries@)
    }

    /// The addresses this receipt covers, in entry order.
    pub open spec fn spec_addrs(&self) -> Seq<Addr> {
        self.entries@.map_values(|e: ReceiptEntry| e.addr)
    }

    pub fn new() -> (r: Receipt)
        ensures
            r.wf(),
            r@ == Map::<Addr, (Seq<Payment>, Amount)>::empty(),
    {
        Receipt { entries: Vec::new() }
    }

    pub fn len(&self) -> (n: usize)
        requires
            self.wf(),
        ensures
            n == self.entries@.len(),
            n == self@.dom().len(),
    {
        proof {
            self.lemma_dom_len();
        }
        self.entries.len()
    }

    proof fn lemma_dom_len(&self)
        requires
            self.wf(),
        ensures
            self@.dom().len() == self.entries@.len(),
            self@.dom().finite(),
    {
        lemma_entries_map_len(self.entries@);
    }

    /// Whether the receipt covers the given address.
    pub fn contains_key(&self, addr: Addr) -> (r: bool)
        ensures
            r == self@.dom().contains(addr),
    {
        let n = self.entries.len();
        let mut i: usize = 0;
        while i < n
            invariant
                n == self.entries@.len(),
                0 <= i <= n,
                forall|k: int| 0 <= k < i ==> self.entries@[k].addr != addr,
            decreases n - i,
        {
            if self.entries[i].addr == addr {
                proof {
                    lemma_entries_map_dom(self.entries@, addr);
                }
                return true;
            }
            i += 1;
        }
        proof {
            lemma_entries_map_dom(self.entries@, addr);
        }
        false
    }

    /// The amount this receipt records for the given address.
    pub fn amount_of(&self, addr: Addr) -> (r: Option<Amount>)
        requires
            self.wf(),
        ensures
            match r {
                Some(amount) => self@.dom().contains(addr) && self@[addr].1 == amount,
                None => !self@.dom().contains(addr),
            },
    {
        let n = self.entries.len();
        let mut i: usize = 0;
        while i < n
            invariant
                self.wf(),
                n == self.entries@.len(),
                0 <= i <= n,
                forall|k: int| 0 <= k < i ==> self.entries@[k].addr != addr,
            decreases n - i,
        {
            if self.entries[i].addr == addr {
                proof {
                    lemma_entries_map_at(self.entries@, i as int);
                }
                return Some(self.entries[i].amount);
            }
            i += 1;
        }
        proof {
            lemma_entries_map_dom(self.entries@, addr);
        }
        None
    }

    /// Record a payment for an address; a later insertion for the same
    /// address replaces the earlier one.
    pub fn insert(&mut self, addr: Addr, proof_payments: Vec<Payment>, amount: Amount)
        requires
            old(self).wf(),
        ensures
            final(self).wf(),
            final(self)@ == old(self)@.insert(addr, (proof_payments@, amount)),
    {
        let n = self.entries.len();
        let mut i: usize = 0;
        while i < n
            invariant
                self.wf(),
                self == old(self),
                n == self.entries@.len(),
                0 <= i <= n,
                forall|k: int| 0 <= k < i ==> self.entries@[k].addr != addr,
            decreases n - i,
        {
            if self.entries[i].addr == addr {
                let ghost old_entries = self.entries@;
                let entry = ReceiptEntry { addr, proof: proof_payments, amount };
                self.entries.set(i, entry);
                proof {
                    lemma_entries_map_update(old_entries, i as int, self.entries@[i as int]);
                }
                return ;
            }
            i += 1;
        }
        let ghost old_entries = self.entries@;
        let entry = ReceiptEntry { addr, proof: proof_payments, amount };
        self.entries.push(entry);
        proof {
            assert(self.entries@.drop_last() =~= old_entries);
            lemma_entries_map_dom(old_entries, addr);
        }
    }

    /// The addresses this receipt covers, in entry order.
    pub fn addresses(&self) -> (r: Vec<Addr>)
        ensures
            r@ == self.spec_addrs(),
    {
        let n = self.entries.len();
        let mut out: Vec<Addr> = Vec::new();
        let mut i: usize = 0;
        while i < n
            invariant
                n == self.entries@.len(),
                0 <= i <= n,
                out@ == self.entries@.take(i as int).map_values(|e: ReceiptEntry| e.addr),
            decreases n - i,
        {
            out.push(self.entries[i].addr);
            proof {
                assert(self.entries@.take(i + 1).drop_last() =~= self.entries@.take(i as int));
                assert(self.entries@.take(i + 1).map_values(|e: ReceiptEntry| e.addr)
                    =~= self.entries@.take(i as int).map_values(|e: ReceiptEntry| e.addr).push(
                    self.entries@[i as int].addr,
                ));
            }
            i += 1;
        }
        proof {
            assert(self.entries@.take(n as int) =~= self.entries@);
        }
        out
    }

}

impl Receipt {
    /// A copy of this receipt, equal at the model level.
    pub fn clone_receipt(&self) -> (r: Receipt)
        ensures
            r@ == self@,
            r.wf() == self.wf(),
            r.spec_addrs() == self.spec_addrs(),
    {
        let n = self.entries.len();
        let mut out: Vec<ReceiptEntry> = Vec::new();
        let mut i: usize = 0;
        while i < n
            invariant
                n == self.entries@.len(),
                0 <= i <= n,
                out@.len() == i,
                forall|k: int|
                    0 <= k < i ==> (#[trigger] out@[k]).addr == self.entries@[k].addr
                        && out@[k].proof@ == self.entries@[k].proof@ && out@[k].amount
                        == self.entries@[k].amount,
            decreases n - i,
        {
            let e = &self.entries[i];
            let entry = ReceiptEntry {
                addr: e.addr,
                proof: crate::types::clone_payments(&e.proof),
                amount: e.amount,
            };
            out.push(entry);
            i += 1;
        }
        proof {
            lemma_entries_map_congruent(out@, self.entries@);
            assert(out@.map_values(|e: ReceiptEntry| e.addr) =~= self.entries@.map_values(
                |e: ReceiptEntry| e.addr,
            ));
        }
        Receipt { entries: out }
    }
}

/// Two entry sequences that agree pointwise on address, proof view and
/// amount denote the same mapping and the same well-formedness.
proof fn lemma_entries_map_congruent(s1: Seq<ReceiptEntry>, s2: Seq<ReceiptEntry>)
    requires
        s1.len() == s2.len(),
        forall|k: int|
            0 <= k < s1.len() ==> (#[trigger] s1[k]).addr == s2[k].addr && s1[k].proof@
                == s2[k].proof@ && s1[k].amount == s2[k].amount,
    ensures
        entries_map(s1) == entries_map(s2),
        wf_entries(s1) == wf_entries(s2),
    decreases s1.len(),
{
    if s1.len() > 0 {
        assert(forall|k: int|
            0 <= k < s1.drop_last().len() ==> s1.drop_last()[k] == s1[k] && s2.drop_last()[k]
                == s2[k]);
        lemma_entries_map_congruent(s1.drop_last(), s2.drop_last());
        assert(s1[s1.len() - 1].addr == s2[s1.len() - 1].addr);
        assert(entries_map(s1) =~= entries_map(s2));
        if wf_entries(s1) {
            assert forall|i: int, j: int| 0 <= i < j < s2.len() implies s2[i].addr
                != s2[j].addr by {
                assert(s1[i].addr != s1[j].addr);
            }
        }
        if wf_entries(s2) {
            assert forall|i: int, j: int| 0 <= i < j < s1.len() implies s1[i].addr
                != s1[j].addr by {
                assert(s2[i].addr != s2[j].addr);
            }
        }
    } else {
        assert(entries_map(s1) =~= entries_map(s2));
    }
}

proof fn lemma_entries_map_len(s: Seq<ReceiptEntry>)
    requires
        wf_entries(s),
    ensures
        entries_map(s).dom().finite(),
        entries_map(s).dom().len() == s.len(),
    decreases s.len(),
{
    if s.len() > 0 {
        lemma_entries_map_len(s.drop_last());
        lemma_entries_map_dom(s.drop_last(), s.last().addr);
    }
}

proof fn lemma_entries_map_update(s: Seq<ReceiptEntry>, i: int, e: ReceiptEntry)
    requires
        wf_entries(s),
        0 <= i < s.len(),
        e.addr == s[i].addr,
    ensures
        wf_entries(s.update(i, e)),
        entries_map(s.update(i, e)) == entries_map(s).insert(e.addr, (e.proof@, e.amount)),
    decreases s.len(),
{
    let t = s.update(i, e);
    if i == s.len() - 1 {
        assert(t.drop_last() =~= s.drop_last());
        assert(entries_map(t) =~= entries_map(s).insert(e.addr, (e.proof@, e.amount)));
    } else {
        assert(t.drop_last() =~= s.drop_last().update(i, e));
        lemma_entries_map_update(s.drop_last(), i, e);
        assert(t.last() == s.last());
        assert(entries_map(t) =~= entries_map(s).insert(e.addr, (e.proof@, e.amount)));
    }
}

/// Outcome of checking a receipt against a required address set.
#[derive(Clone, Debug)]
pub struct ReceiptValidation {
    pub missing_chunks: Vec<Addr>,
    pub is_complete: bool,
}

/// Checks that a receipt covers every required content address.
///
/// Completeness is computed explicitly from membership, never inferred from
/// size equality: the result is complete exactly when every required address
/// is a key of the receipt, so an empty requirement set is vacuously
/// complete.
pub fn validate_receipt_coverage_with_content_addresses(
    receipt: &Receipt,
    content_addresses: &Vec<Addr>,
) -> (r: ReceiptValidation)
    ensures
        r.is_complete <==> (forall|i: int|
            0 <= i < content_addresses@.len() ==> receipt@.dom().contains(
                #[trigger] content_addresses@[i],
            )),
        r.missing_chunks@ == content_addresses@.filter(|a: Addr| !receipt@.dom().contains(a)),
        r.is_complete <==> r.missing_chunks@.len() == 0,
{
    let ghost pred = |a: Addr| !receipt@.dom().contains(a);
    let n = content_addresses.len();
    let mut missing: Vec<Addr> = Vec::new();
    let mut i: usize = 0;
    proof {
        assert(content_addresses@.take(0).filter(pred) =~= Seq::<Addr>::empty());
    }
    while i < n
        invariant
            n == content_addresses@.len(),
            0 <= i <= n,
            missing@ == content_addresses@.take(i as int).filter(pred),
            pred == (|a: Addr| !receipt@.dom().contains(a)),
        decreases n - i,
    {
        let addr = content_addresses[i];
        let covered = receipt.contains_key(addr);
        proof {
            assert(content_addresses@.take(i + 1).drop_last() =~= content_addresses@.take(
                i as int,
            ));
            reveal(Seq::filter);
            assert(content_addresses@.take(i + 1).last() == content_addresses@[i as int]);
        }
        if !covered {
            missing.push(addr);
        }
        i += 1;
    }
    proof {
        assert(content_addresses@.take(n as int) =~= content_addresses@);
        lemma_filter_empty_iff_all(content_addresses@, pred);
    }
    let is_complete = missing.len() == 0;
    ReceiptValidation { missing_chunks: missing, is_complete }
}

proof fn lemma_filter_empty_iff_all(s: Seq<Addr>, pred: spec_fn(Addr) -> bool)
    ensures
        s.filter(pred).len() == 0 <==> (forall|i: int| 0 <= i < s.len() ==> !pred(#[trigger] s[i])),
    decreases s.len(),
{
    reveal(Seq::filter);
    if s.len() > 0 {
        lemma_filter_empty_iff_all(s.drop_last(), pred);
        assert(forall|i: int| 0 <= i < s.drop_last().len() ==> s.drop_last()[i] == s[i]);
        if s.filter(pred).len() == 0 {
            assert(!pred(s[s.len() - 1]));
        }
    }
}

/// The mapping that merging a sequence of receipts denotes: the union of
/// their mappings, later receipts winning on collision.
pub open spec fn merged_view(s: Seq<Map<Addr, (Seq<Payment>, Amount)>>) -> Map<
    Addr,
    (Seq<Payment>, Amount),
>
    decreases s.len(),
{
    if s.len() == 0 {
        Map::empty()
    } else {
        merged_view(s.drop_last()).union_prefer_right(s.last())
    }
}

pub proof fn lemma_merged_view_single(m: Map<Addr, (Seq<Payment>, Amount)>)
    ensures
        merged_view(seq![m]) == m,
{
    let s = seq![m];
    assert(s.drop_last() =~= Seq::<Map<Addr, (Seq<Payment>, Amount)>>::empty());
    assert(merged_view(Seq::<Map<Addr, (Seq<Payment>, Amount)>>::empty()) == Map::<
        Addr,
        (Seq<Payment>, Amount),
    >::empty());
    assert(s.last() == m);
    assert(merged_view(s) == Map::<Addr, (Seq<Payment>, Amount)>::empty().union_prefer_right(m));
    assert(Map::<Addr, (Seq<Payment>, Amount)>::empty().union_prefer_right(m) =~= m);
}

/// Merges receipts into one; on an address held by several receipts the
/// entry of the latest one wins. A single receipt is returned unchanged.
/// An empty input is a caller error, excluded by precondition.
pub fn merge_receipts(receipts: Vec<Receipt>) -> (r: Receipt)
    requires
        receipts@.len() >= 1,
        forall|i: int| 0 <= i < receipts@.len() ==> (#[trigger] receipts@[i]).wf(),
    ensures
        r.wf(),
        r@ == merged_view(receipts@.map_values(|x: Receipt| x@)),
        receipts@.len() == 1 ==> r == receipts@[0],
{
    let ghost views = receipts@.map_values(|x: Receipt| x@);
    let n = receipts.len();
    if n == 1 {
        let mut receipts = receipts;
        let r = receipts.pop().unwrap();
        proof {
            assert(views =~= seq![r@]);
            lemma_merged_view_single(r@);
        }
        return r;
    }
    let mut acc = Receipt::new();
    let mut i: usize = 0;
    proof {
        assert(views.take(0) =~= Seq::<Map<Addr, (Seq<Payment>, Amount)>>::empty());
    }
    while i < n
        invariant
            n == receipts@.len(),
            0 <= i <= n,
            views == receipts@.map_values(|x: Receipt| x@),
            forall|k: int| 0 <= k < receipts@.len() ==> (#[trigger] receipts@[k]).wf(),
            acc.wf(),
            acc@ == merged_view(views.take(i as int)),
        decreases n - i,
    {
        let entries = &receipts[i].entries;
        let m = entries.len();
        let mut j: usize = 0;
        while j < m
            invariant
                0 <= i < n,
                n == receipts@.len(),
                views == receipts@.map_values(|x: Receipt| x@),
                forall|k: int| 0 <= k < receipts@.len() ==> (#[trigger] receipts@[k]).wf(),
                m == receipts@[i as int].entries@.len(),
                entries@ == receipts@[i as int].entries@,
                0 <= j <= m,
                acc.wf(),
                acc@ == merged_view(views.take(i as int)).union_prefer_right(
                    entries_map(entries@.take(j as int)),
                ),
            decreases m - j,
        {
            let e = &entries[j];
            let proof_payments = e.proof.clone();
            let ghost before = acc@;
            acc.insert(e.addr, proof_payments, e.amount);
            proof {
                assert(entries@.take(j + 1).drop_last() =~= entries@.take(j as int));
                assert(acc@ =~= merged_view(views.take(i as int)).union_prefer_right(
                    entries_map(entries@.take(j + 1)),
                ));
            }
            j += 1;
        }
        proof {
            assert(entries@.take(m as int) =~= entries@);
            assert(views.take(i + 1).drop_last() =~= views.take(i as int));
            assert(views.take(i + 1).last() == views[i as int]);
            assert(views[i as int] == receipts@[i as int]@);
            assert(acc@ == merged_view(views.take(i + 1)));
        }
        i += 1;
    }
    proof {
        assert(views.take(n as int) =~= views);
    }
    acc
}

/// Law: merging two receipts is last-wins. On every address the second
/// receipt covers, the merge carries the second receipt's entry; on every
/// address only the first covers, it carries the first receipt's entry; and
/// it covers an address exactly when one of the two does.
pub proof fn lemma_merge_two_last_wins(r1: Receipt, r2: Receipt, merged: Receipt)
    requires
        merged@ == merged_view(seq![r1@, r2@]),
    ensures
        forall|a: Addr| r2@.dom().contains(a) ==> merged@.dom().contains(a) && merged@[a]
            == r2@[a],
        forall|a: Addr|
            r1@.dom().contains(a) && !r2@.dom().contains(a) ==> merged@.dom().contains(a)
                && merged@[a] == r1@[a],
        forall|a: Addr|
            merged@.dom().contains(a) <==> r1@.dom().contains(a) || r2@.dom().contains(a),
{
    let s = seq![r1@, r2@];
    assert(s.drop_last() =~= seq![r1@]);
    lemma_merged_view_single(r1@);
    assert(s.last() == r2@);
    assert(merged@ == r1@.union_prefer_right(r2@));
}

/// Law: coverage validation is complete exactly when every required address
/// is a key of the receipt; in particular an empty requirement set is
/// vacuously complete.
pub proof fn lemma_coverage_complete_iff(
    receipt: Receipt,
    required: Seq<Addr>,
    validation: ReceiptValidation,
)
    requires
        validation.is_complete <==> (forall|i: int|
            0 <= i < required.len() ==> receipt@.dom().contains(#[trigger] required[i])),
    ensures
        required.len() == 0 ==> validation.is_complete,
        validation.is_complete <==> (forall|i: int|
            0 <= i < required.len() ==> receipt@.dom().contains(#[trigger] required[i])),
{
}

} // verus!
