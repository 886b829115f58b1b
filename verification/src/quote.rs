//! Store quotes: the priced cost of writing a set of content addresses.
//!
//! A quote maps each content address to the list of payments that would
//! settle storing it. A quote with a total cost of zero needs no payment
//! order; a nonzero quote is turned into a receipt once paid.

use vstd::prelude::*;

use crate::receipt::Receipt;
use crate::types::{Addr, Amount, Payment};

verus! {

/// The priced claims for one content address.
#[derive(Clone)]
pub struct QuoteEntry {
    pub addr: Addr,
    pub payments: Vec<Payment>,
}

/// The quote entries hold pairwise distinct addresses.
pub open spec fn wf_quote_entries(s: Seq<QuoteEntry>) -> bool {
    forall|i: int, j: int| 0 <= i < j < s.len() ==> s[i].addr != s[j].addr
}

/// The mapping a sequence of quote entries denotes, later entries winning
/// on collision.
pub open spec fn quote_entries_map(s: Seq<QuoteEntry>) -> Map<Addr, Seq<Payment>>
    decreases s.len(),
{
    if s.len() == 0 {
        Map::empty()
    } else {
        quote_entries_map(s.drop_last()).insert(s.last().addr, s.last().payments@)
    }
}

pub proof fn lemma_quote_entries_map_dom(s: Seq<QuoteEntry>, a: Addr)
    ensures
        quote_entries_map(s).dom().contains(a) <==> exists|i: int|
            0 <= i < s.len() && s[i].addr == a,
    decreases s.len(),
{
    if s.len() > 0 {
        lemma_quote_entries_map_dom(s.drop_last(), a);
        if s.last().addr == a {
            assert(s[s.len() - 1].addr == a);
        } else if quote_entries_map(s.drop_last()).dom().contains(a) {
            let i = choose|i: int| 0 <= i < s.drop_last().len() && s.drop_last()[i].addr == a;
            assert(s[i].addr == a);
        } else if exists|i: int| 0 <= i < s.len() && s[i].addr == a {
            let i = choose|i: int| 0 <= i < s.len() && s[i].addr == a;
            assert(s.drop_last()[i].addr == a);
        }
    }
}

/// Sum of the amounts of a payment list.
pub open spec fn sum_amounts(s: Seq<Payment>) -> int
    decreases s.len(),
{
    if s.len() == 0 {
        0
    } else {
        sum_amounts(s.drop_last()) + s.last().amount
    }
}

proof fn lemma_sum_amounts_nonneg(s: Seq<Payment>)
    ensures
        sum_amounts(s) >= 0,
    decreases s.len(),
{
    if s.len() > 0 {
        lemma_sum_amounts_nonneg(s.drop_last());
    }
}

proof fn lemma_sum_amounts_prefix(s: Seq<Payment>, j: int)
    requires
        0 <= j <= s.len(),
    ensures
        sum_amounts(s.take(j)) <= sum_amounts(s),
    decreases s.len() - j,
{
    if j == s.len() {
        assert(s.take(j) =~= s);
    } else {
        assert(s.take(j + 1).drop_last() =~= s.take(j));
        lemma_sum_amounts_prefix(s, j + 1);
    }
}

/// Total cost of a sequence of quote entries: the sum of every payment
/// amount in every entry.
pub open spec fn total_cost_of(s: Seq<QuoteEntry>) -> int
    decreases s.len(),
{
    if s.len() == 0 {
        0
    } else {
        total_cost_of(s.drop_last()) + sum_amounts(s.last().payments@)
    }
}

pub proof fn lemma_total_cost_nonneg(s: Seq<QuoteEntry>)
    ensures
        total_cost_of(s) >= 0,
    decreases s.len(),
{
    if s.len() > 0 {
        lemma_total_cost_nonneg(s.drop_last());
        lemma_sum_amounts_nonneg(s.last().payments@);
    }
}

proof fn lemma_total_cost_prefix(s: Seq<QuoteEntry>, i: int)
    requires
        0 <= i <= s.len(),
    ensures
        total_cost_of(s.take(i)) <= total_cost_of(s),
    decreases s.len() - i,
{
    if i == s.len() {
        assert(s.take(i) =~= s);
    } else {
        assert(s.take(i + 1).drop_last() =~= s.take(i));
        lemma_sum_amounts_nonneg(s[i].payments@);
        assert(s.take(i + 1).last() == s[i]);
        lemma_total_cost_prefix(s, i + 1);
    }
}

/// Whether a payment is one of the priced claims of some quote entry.
pub open spec fn payment_of_quote(s: Seq<QuoteEntry>, p: Payment) -> bool {
    exists|i: int| 0 <= i < s.len() && (#[trigger] s[i]).payments@.contains(p)
}

/// The nonzero payments of a sequence of quote entries, in entry order:
/// what a payment order asks the user to settle.
pub open spec fn spec_positive_payments(s: Seq<QuoteEntry>) -> Seq<Payment>
    decreases s.len(),
{
    if s.len() == 0 {
        Seq::empty()
    } else {
        spec_positive_payments(s.drop_last()) + s.last().payments@.filter(
            |p: Payment| p.amount > 0,
        )
    }
}

proof fn lemma_sum_amounts_concat(a: Seq<Payment>, b: Seq<Payment>)
    ensures
        sum_amounts(a + b) == sum_amounts(a) + sum_amounts(b),
    decreases b.len(),
{
    if b.len() == 0 {
        assert(a + b =~= a);
    } else {
        assert((a + b).drop_last() =~= a + b.drop_last());
        assert((a + b).last() == b.last());
        lemma_sum_amounts_concat(a, b.drop_last());
    }
}

/// Dropping the zero-amount payments changes nothing about the sum.
proof fn lemma_sum_filter_positive(s: Seq<Payment>)
    ensures
        sum_amounts(s.filter(|p: Payment| p.amount > 0)) == sum_amounts(s),
    decreases s.len(),
{
    reveal(Seq::filter);
    if s.len() > 0 {
        lemma_sum_filter_positive(s.drop_last());
        let pred = |p: Payment| p.amount > 0;
        if pred(s.last()) {
            assert(s.filter(pred) == s.drop_last().filter(pred).push(s.last()));
            assert(s.filter(pred).drop_last() =~= s.drop_last().filter(pred));
        } else {
            assert(s.last().amount == 0);
        }
    }
}

/// The nonzero payments carry the whole cost: zero amounts drop out.
pub proof fn lemma_positive_payments_sum(s: Seq<QuoteEntry>)
    ensures
        sum_amounts(spec_positive_payments(s)) == total_cost_of(s),
    decreases s.len(),
{
    if s.len() > 0 {
        lemma_positive_payments_sum(s.drop_last());
        lemma_sum_amounts_concat(
            spec_positive_payments(s.drop_last()),
            s.last().payments@.filter(|p: Payment| p.amount > 0),
        );
        lemma_sum_filter_positive(s.last().payments@);
    }
}

/// The priced cost of writing a set of content addresses.
pub struct StoreQuote {
    pub entries: Vec<QuoteEntry>,
}

impl View for StoreQuote {
    type V = Map<Addr, Seq<Payment>>;

    open spec fn view(&self) -> Map<Addr, Seq<Payment>> {
        quote_entries_map(self.entries@)
    }
}

impl StoreQuote {
    /// Entries hold pairwise distinct addresses.
    pub open spec fn wf(&self) -> bool {
        wf_quote_entries(self.entries@)
    }

    /// Total cost of this quote.
    pub open spec fn spec_total_cost(&self) -> int {
        total_cost_of(self.entries@)
    }

    /// The quoted content addresses, in entry order.
    pub open spec fn spec_addrs(&self) -> Seq<Addr> {
        self.entries@.map_values(|e: QuoteEntry| e.addr)
    }

    pub fn new() -> (r: StoreQuote)
        ensures
            r.wf(),
            r@ == Map::<Addr, Seq<Payment>>::empty(),
            r.spec_total_cost() == 0,
            r.entries@.len() == 0,
    {
        StoreQuote { entries: Vec::new() }
    }

    /// Add the priced claims for one address; a later insertion for the
    /// same address replaces the earlier one. Addresses must be fresh to
    /// keep entry order meaningful, so replacement rewrites in place.
    pub fn insert(&mut self, addr: Addr, payments: Vec<Payment>)
        requires
            old(self).wf(),
        ensures
            final(self).wf(),
            final(self)@ == old(self)@.insert(addr, payments@),
            !old(self)@.dom().contains(addr) ==> final(self).entries@ == old(self).entries@.push(
                QuoteEntry { addr, payments: payments },
            ),
    {
        let n = self.entries.len();
        let mut i: usize = 0;
        while i < n
            invariant
                self.wf(),
                self == old(self),
                n == self.entries@.len(),
                0 <= i <= n,
                forall|k: int| 0 <= k < i ==> self.entries@[k].addr != addr,
            decreases n - i,
        {
            if self.entries[i].addr == addr {
                let ghost old_entries = self.entries@;
                let entry = QuoteEntry { addr, payments };
                self.entries.set(i, entry);
                proof {
                    lemma_quote_entries_map_dom(old_entries, addr);
                    lemma_quote_map_update(old_entries, i as int, self.entries@[i as int]);
                }
                return ;
            }
            i += 1;
        }
        let ghost old_entries = self.entries@;
        let entry = QuoteEntry { addr, payments };
        self.entries.push(entry);
        proof {
            assert(self.entries@.drop_last() =~= old_entries);
            lemma_quote_entries_map_dom(old_entries, addr);
        }
    }

    /// Whether this quote prices the given address.
    pub fn contains_key(&self, addr: Addr) -> (r: bool)
        ensures
            r == self@.dom().contains(addr),
    {
        let n = self.entries.len();
        let mut i: usize = 0;
        while i < n
            invariant
                n == self.entries@.len(),
                0 <= i <= n,
                forall|k: int| 0 <= k < i ==> self.entries@[k].addr != addr,
            decreases n - i,
        {
            if self.entries[i].addr == addr {
                proof {
                    lemma_quote_entries_map_dom(self.entries@, addr);
                }
                return true;
            }
            i += 1;
        }
        proof {
            lemma_quote_entries_map_dom(self.entries@, addr);
        }
        false
    }

    /// The quoted content addresses, in entry order.
    pub fn addresses(&self) -> (r: Vec<Addr>)
        ensures
            r@ == self.spec_addrs(),
    {
        let n = self.entries.len();
        let mut out: Vec<Addr> = Vec::new();
        let mut i: usize = 0;
        while i < n
            invariant
                n == self.entries@.len(),
                0 <= i <= n,
                out@ == self.entries@.take(i as int).map_values(|e: QuoteEntry| e.addr),
            decreases n - i,
        {
            out.push(self.entries[i].addr);
            proof {
                assert(self.entries@.take(i + 1).drop_last() =~= self.entries@.take(i as int));
                assert(self.entries@.take(i + 1).map_values(|e: QuoteEntry| e.addr)
                    =~= self.entries@.take(i as int).map_values(|e: QuoteEntry| e.addr).push(
                    self.entries@[i as int].addr,
                ));
            }
            i += 1;
        }
        proof {
            assert(self.entries@.take(n as int) =~= self.entries@);
        }
        out
    }

    /// The total cost of this quote, or `None` when it exceeds what a
    /// 128-bit amount can carry.
    pub fn total_cost(&self) -> (r: Option<Amount>)
        ensures
            match r {
                Some(t) => t == self.spec_total_cost(),
                None => self.spec_total_cost() > Amount::MAX,
            },
    {
        let n = self.entries.len();
        let mut total: Amount = 0;
        let mut i: usize = 0;
        proof {
            assert(self.entries@.take(0) =~= Seq::<QuoteEntry>::empty());
        }
        while i < n
            invariant
                n == self.entries@.len(),
                0 <= i <= n,
                total == total_cost_of(self.entries@.take(i as int)),
            decreases n - i,
        {
            let payments = &self.entries[i].payments;
            let m = payments.len();
            let mut j: usize = 0;
            proof {
                assert(payments@.take(0) =~= Seq::<Payment>::empty());
            }
            while j < m
                invariant
                    0 <= i < n,
                    n == self.entries@.len(),
                    m == payments@.len(),
                    payments@ == self.entries@[i as int].payments@,
                    0 <= j <= m,
                    total == total_cost_of(self.entries@.take(i as int)) + sum_amounts(
                        payments@.take(j as int),
                    ),
                decreases m - j,
            {
                let amount = payments[j].amount;
                proof {
                    assert(payments@.take(j + 1).drop_last() =~= payments@.take(j as int));
                    assert(payments@.take(j + 1).last() == payments@[j as int]);
                }
                if amount > Amount::MAX - total {
                    proof {
                        lemma_sum_amounts_prefix(payments@, j + 1);
                        assert(self.entries@.take(i + 1).drop_last() =~= self.entries@.take(
                            i as int,
                        ));
                        assert(self.entries@.take(i + 1).last() == self.entries@[i as int]);
                        lemma_total_cost_prefix(self.entries@, i + 1);
                    }
                    return None;
                }
                total = total + amount;
                j += 1;
            }
            proof {
                assert(payments@.take(m as int) =~= payments@);
                assert(self.entries@.take(i + 1).drop_last() =~= self.entries@.take(i as int));
                assert(self.entries@.take(i + 1).last() == self.entries@[i as int]);
            }
            i += 1;
        }
        proof {
            assert(self.entries@.take(n as int) =~= self.entries@);
        }
        Some(total)
    }

    /// Whether paying this quote costs anything: true exactly when the
    /// total cost is nonzero. A zero-cost quote needs no payment order.
    pub fn has_payments(&self) -> (r: bool)
        ensures
            r == (self.spec_total_cost() > 0),
    {
        match self.total_cost() {
            Some(t) => t > 0,
            None => true,
        }
    }

    /// Every payment of every entry, in entry order.
    pub fn payments(&self) -> (r: Vec<Payment>)
        ensures
            sum_amounts(r@) == self.spec_total_cost(),
            forall|k: int|
                0 <= k < r@.len() ==> payment_of_quote(self.entries@, #[trigger] r@[k]),
    {
        let n = self.entries.len();
        let mut out: Vec<Payment> = Vec::new();
        let mut i: usize = 0;
        proof {
            assert(self.entries@.take(0) =~= Seq::<QuoteEntry>::empty());
        }
        while i < n
            invariant
                n == self.entries@.len(),
                0 <= i <= n,
                sum_amounts(out@) == total_cost_of(self.entries@.take(i as int)),
                forall|k: int|
                    0 <= k < out@.len() ==> payment_of_quote(self.entries@, #[trigger] out@[k]),
            decreases n - i,
        {
            let payments = &self.entries[i].payments;
            let m = payments.len();
            let mut j: usize = 0;
            while j < m
                invariant
                    0 <= i < n,
                    n == self.entries@.len(),
                    m == payments@.len(),
                    payments@ == self.entries@[i as int].payments@,
                    0 <= j <= m,
                    sum_amounts(out@) == total_cost_of(self.entries@.take(i as int)) + sum_amounts(
                        payments@.take(j as int),
                    ),
                    forall|k: int|
                        0 <= k < out@.len() ==> payment_of_quote(self.entries@, #[trigger] out@[k]),
                decreases m - j,
            {
                let p = payments[j];
                let ghost old_out = out@;
                out.push(p);
                proof {
                    assert(out@.drop_last() =~= old_out);
                    assert(sum_amounts(out@) == sum_amounts(old_out) + p.amount);
                    assert(payments@.take(j + 1).drop_last() =~= payments@.take(j as int));
                    assert(payments@.take(j + 1).last() == payments@[j as int]);
                    assert(payments@.contains(p)) by {
                        assert(payments@[j as int] == p);
                    }
                    assert(self.entries@[i as int].payments@.contains(p));
                    assert(payment_of_quote(self.entries@, p));
                }
                j += 1;
            }
            proof {
                assert(payments@.take(m as int) =~= payments@);
                assert(self.entries@.take(i + 1).drop_last() =~= self.entries@.take(i as int));
                assert(self.entries@.take(i + 1).last() == self.entries@[i as int]);
            }
            i += 1;
        }
        proof {
            assert(self.entries@.take(n as int) =~= self.entries@);
        }
        out
    }
}

impl StoreQuote {
    /// The nonzero payments of this quote, in entry order: exactly what a
    /// payment order lists for the user; their sum is the quote's total
    /// cost.
    pub fn positive_payments(&self) -> (r: Vec<Payment>)
        ensures
            r@ == spec_positive_payments(self.entries@),
            sum_amounts(r@) == self.spec_total_cost(),
            forall|k: int| 0 <= k < r@.len() ==> (#[trigger] r@[k]).amount > 0,
    {
        let ghost pred = |p: Payment| p.amount > 0;
        let n = self.entries.len();
        let mut out: Vec<Payment> = Vec::new();
        let mut i: usize = 0;
        proof {
            assert(self.entries@.take(0) =~= Seq::<QuoteEntry>::empty());
            assert(out@ =~= spec_positive_payments(self.entries@.take(0)));
        }
        while i < n
            invariant
                n == self.entries@.len(),
                0 <= i <= n,
                pred == (|p: Payment| p.amount > 0),
                out@ == spec_positive_payments(self.entries@.take(i as int)),
                forall|k: int| 0 <= k < out@.len() ==> (#[trigger] out@[k]).amount > 0,
            decreases n - i,
        {
            let payments = &self.entries[i].payments;
            let m = payments.len();
            let mut j: usize = 0;
            proof {
                assert(payments@.take(0).filter(pred) =~= Seq::<Payment>::empty());
                assert(out@ =~= spec_positive_payments(self.entries@.take(i as int))
                    + payments@.take(0).filter(pred));
            }
            while j < m
                invariant
                    0 <= i < n,
                    n == self.entries@.len(),
                    m == payments@.len(),
                    payments@ == self.entries@[i as int].payments@,
                    0 <= j <= m,
                    pred == (|p: Payment| p.amount > 0),
                    out@ == spec_positive_payments(self.entries@.take(i as int))
                        + payments@.take(j as int).filter(pred),
                    forall|k: int| 0 <= k < out@.len() ==> (#[trigger] out@[k]).amount > 0,
                decreases m - j,
            {
                let p = payments[j];
                proof {
                    assert(payments@.take(j + 1).drop_last() =~= payments@.take(j as int));
                    assert(payments@.take(j + 1).last() == payments@[j as int]);
                    reveal(Seq::filter);
                }
                if p.amount > 0 {
                    out.push(p);
                }
                proof {
                    assert(out@ =~= spec_positive_payments(self.entries@.take(i as int))
                        + payments@.take(j + 1).filter(pred));
                }
                j += 1;
            }
            proof {
                assert(payments@.take(m as int) =~= payments@);
                assert(self.entries@.take(i + 1).drop_last() =~= self.entries@.take(i as int));
                assert(self.entries@.take(i + 1).last() == self.entries@[i as int]);
                assert(out@ =~= spec_positive_payments(self.entries@.take(i + 1)));
            }
            i += 1;
        }
        proof {
            assert(self.entries@.take(n as int) =~= self.entries@);
            lemma_positive_payments_sum(self.entries@);
        }
        out
    }
}

proof fn lemma_quote_map_update(s: Seq<QuoteEntry>, i: int, e: QuoteEntry)
    requires
        wf_quote_entries(s),
        0 <= i < s.len(),
        e.addr == s[i].addr,
    ensures
        wf_quote_entries(s.update(i, e)),
        quote_entries_map(s.update(i, e)) == quote_entries_map(s).insert(e.addr, e.payments@),
    decreases s.len(),
{
    let t = s.update(i, e);
    if i == s.len() - 1 {
        assert(t.drop_last() =~= s.drop_last());
        assert(quote_entries_map(t) =~= quote_entries_map(s).insert(e.addr, e.payments@));
    } else {
        assert(t.drop_last() =~= s.drop_last().update(i, e));
        lemma_quote_map_update(s.drop_last(), i, e);
        assert(t.last() == s.last());
        assert(quote_entries_map(t) =~= quote_entries_map(s).insert(e.addr, e.payments@));
    }
}

/// Whether two quote entries share an address: such a quote is malformed
/// and cannot be turned into a receipt.
pub fn quote_has_duplicates(q: &StoreQuote) -> (r: bool)
    ensures
        r == !q.wf(),
{
    let n = q.entries.len();
    let mut i: usize = 0;
    while i < n
        invariant
            n == q.entries@.len(),
            0 <= i <= n,
            forall|k1: int, k2: int|
                0 <= k1 < k2 < q.entries@.len() && k1 < i ==> q.entries@[k1].addr
                    != q.entries@[k2].addr,
        decreases n - i,
    {
        let mut j: usize = i + 1;
        while j < n
            invariant
                n == q.entries@.len(),
                0 <= i < n,
                i < j <= n,
                forall|k2: int| (i as int) < k2 < j ==> q.entries@[i as int].addr != q.entries@[k2].addr,
            decreases n - j,
        {
            if q.entries[i].addr == q.entries[j].addr {
                return true;
            }
            j += 1;
        }
        i += 1;
    }
    false
}

/// The mapping that combining a sequence of quotes denotes: the union of
/// their mappings, later quotes winning on collision.
pub open spec fn combined_view(s: Seq<Map<Addr, Seq<Payment>>>) -> Map<Addr, Seq<Payment>>
    decreases s.len(),
{
    if s.len() == 0 {
        Map::empty()
    } else {
        combined_view(s.drop_last()).union_prefer_right(s.last())
    }
}

/// Combines quotes into one mapping; on an address priced by several
/// quotes the entry of the latest one wins.
pub fn combine_quotes(quotes: Vec<StoreQuote>) -> (r: StoreQuote)
    requires
        forall|i: int| 0 <= i < quotes@.len() ==> (#[trigger] quotes@[i]).wf(),
    ensures
        r.wf(),
        r@ == combined_view(quotes@.map_values(|x: StoreQuote| x@)),
{
    let ghost views = quotes@.map_values(|x: StoreQuote| x@);
    let n = quotes.len();
    let mut acc = StoreQuote::new();
    let mut i: usize = 0;
    proof {
        assert(views.take(0) =~= Seq::<Map<Addr, Seq<Payment>>>::empty());
    }
    while i < n
        invariant
            n == quotes@.len(),
            0 <= i <= n,
            views == quotes@.map_values(|x: StoreQuote| x@),
            forall|k: int| 0 <= k < quotes@.len() ==> (#[trigger] quotes@[k]).wf(),
            acc.wf(),
            acc@ == combined_view(views.take(i as int)),
        decreases n - i,
    {
        let entries = &quotes[i].entries;
        let m = entries.len();
        let mut j: usize = 0;
        while j < m
            invariant
                0 <= i < n,
                n == quotes@.len(),
                views == quotes@.map_values(|x: StoreQuote| x@),
                forall|k: int| 0 <= k < quotes@.len() ==> (#[trigger] quotes@[k]).wf(),
                m == quotes@[i as int].entries@.len(),
                entries@ == quotes@[i as int].entries@,
                0 <= j <= m,
                acc.wf(),
                acc@ == combined_view(views.take(i as int)).union_prefer_right(
                    quote_entries_map(entries@.take(j as int)),
                ),
            decreases m - j,
        {
            let e = &entries[j];
            let payments = e.payments.clone();
            proof {
                lemma_payment_vec_clone(e.payments, payments);
            }
            acc.insert(e.addr, payments);
            proof {
                assert(entries@.take(j + 1).drop_last() =~= entries@.take(j as int));
                assert(entries@.take(j + 1).last() == entries@[j as int]);
                assert(acc@ =~= combined_view(views.take(i as int)).union_prefer_right(
                    quote_entries_map(entries@.take(j + 1)),
                ));
            }
            j += 1;
        }
        proof {
            assert(entries@.take(m as int) =~= entries@);
            assert(views.take(i + 1).drop_last() =~= views.take(i as int));
            assert(views.take(i + 1).last() == views[i as int]);
            assert(acc@ == combined_view(views.take(i + 1)));
        }
        i += 1;
    }
    proof {
        assert(views.take(n as int) =~= views);
    }
    acc
}

/// A cloned payment list is the same list: payments are plain values.
pub proof fn lemma_payment_vec_clone(a: Vec<Payment>, b: Vec<Payment>)
    requires
        b.len() == a.len(),
        forall|i: int| #![all_triggers] 0 <= i < a.len() ==> vstd::pervasive::cloned::<Payment>(
            a[i],
            b[i],
        ),
    ensures
        a@ == b@,
{
    assert(forall|i: int| 0 <= i < a@.len() ==> a@[i] == b@[i]);
    assert(a@ =~= b@);
}

/// The mapping a receipt built from a quote denotes: every quoted address,
/// paired with the quote's payments as proof and their sum as the amount.
pub open spec fn receipt_of_quote(s: Seq<QuoteEntry>) -> Map<Addr, (Seq<Payment>, Amount)>
    decreases s.len(),
{
    if s.len() == 0 {
        Map::empty()
    } else {
        receipt_of_quote(s.drop_last()).insert(
            s.last().addr,
            (s.last().payments@, sum_amounts(s.last().payments@) as Amount),
        )
    }
}

proof fn lemma_entry_sum_fits(s: Seq<QuoteEntry>, i: int)
    requires
        0 <= i < s.len(),
    ensures
        sum_amounts(s[i].payments@) <= total_cost_of(s),
    decreases s.len(),
{
    lemma_sum_amounts_nonneg(s.last().payments@);
    if i == s.len() - 1 {
        lemma_total_cost_nonneg(s.drop_last());
    } else {
        lemma_entry_sum_fits(s.drop_last(), i);
        assert(s.drop_last()[i] == s[i]);
    }
}

/// Builds the receipt that paying a quote in full yields: each quoted
/// address becomes a receipt entry whose proof is the quote's payments and
/// whose amount is their sum.
pub fn receipt_from_store_quotes(quote: &StoreQuote) -> (r: Receipt)
    requires
        quote.wf(),
        quote.spec_total_cost() <= Amount::MAX,
    ensures
        r.wf(),
        r@ == receipt_of_quote(quote.entries@),
        forall|a: Addr| r@.dom().contains(a) <==> quote@.dom().contains(a),
{
    let n = quote.entries.len();
    let mut acc = Receipt::new();
    let mut i: usize = 0;
    proof {
        assert(quote.entries@.take(0) =~= Seq::<QuoteEntry>::empty());
    }
    while i < n
        invariant
            n == quote.entries@.len(),
            quote.wf(),
            quote.spec_total_cost() <= Amount::MAX,
            0 <= i <= n,
            acc.wf(),
            acc@ == receipt_of_quote(quote.entries@.take(i as int)),
        decreases n - i,
    {
        let entry = &quote.entries[i];
        let payments = entry.payments.clone();
        proof {
            lemma_payment_vec_clone(entry.payments, payments);
        }
        let amount = sum_entry_amounts(&payments, Ghost(quote.entries@), Ghost(i as int));
        acc.insert(entry.addr, payments, amount);
        proof {
            assert(quote.entries@.take(i + 1).drop_last() =~= quote.entries@.take(i as int));
            assert(quote.entries@.take(i + 1).last() == quote.entries@[i as int]);
        }
        i += 1;
    }
    proof {
        assert(quote.entries@.take(n as int) =~= quote.entries@);
        lemma_receipt_of_quote_dom(quote.entries@);
    }
    acc
}

proof fn lemma_receipt_of_quote_dom(s: Seq<QuoteEntry>)
    ensures
        receipt_of_quote(s).dom() == quote_entries_map(s).dom(),
    decreases s.len(),
{
    if s.len() == 0 {
        assert(receipt_of_quote(s).dom() =~= quote_entries_map(s).dom());
    } else {
        lemma_receipt_of_quote_dom(s.drop_last());
        assert(receipt_of_quote(s).dom() =~= quote_entries_map(s).dom());
    }
}

/// Sums the amounts of one quote entry's payments. The entry is part of a
/// quote whose total cost fits, so this sum fits too.
fn sum_entry_amounts(payments: &Vec<Payment>, Ghost(entries): Ghost<Seq<QuoteEntry>>, Ghost(
    at,
): Ghost<int>) -> (r: Amount)
    requires
        0 <= at < entries.len(),
        payments@ == entries[at].payments@,
        total_cost_of(entries) <= Amount::MAX,
    ensures
        r == sum_amounts(payments@),
{
    proof {
        lemma_entry_sum_fits(entries, at);
        lemma_sum_amounts_nonneg(payments@);
    }
    let m = payments.len();
    let mut total: Amount = 0;
    let mut j: usize = 0;
    proof {
        assert(payments@.take(0) =~= Seq::<Payment>::empty());
        lemma_sum_amounts_nonneg(payments@.take(0));
    }
    while j < m
        invariant
            m == payments@.len(),
            0 <= j <= m,
            total == sum_amounts(payments@.take(j as int)),
            sum_amounts(payments@) <= Amount::MAX,
        decreases m - j,
    {
        proof {
            assert(payments@.take(j + 1).drop_last() =~= payments@.take(j as int));
            assert(payments@.take(j + 1).last() == payments@[j as int]);
            lemma_sum_amounts_prefix(payments@, j + 1);
        }
        total = total + payments[j].amount;
        j += 1;
    }
    proof {
        assert(payments@.take(m as int) =~= payments@);
    }
    total
}

} // verus!
