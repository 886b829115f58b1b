//! The payment cache: a local, content-fingerprint-keyed store of
//! previously obtained receipts, used to skip redundant payment within a
//! retention window.
//!
//! The fingerprint is a fast, non-cryptographic hash over the content,
//! computed by the caller; it is a local heuristic, not a security
//! boundary. Time enters every operation as an explicit clock reading, so
//! expiry is a function of the record and the clock alone.

use vstd::prelude::*;

use crate::receipt::Receipt;
use crate::types::{Addr, Amount, Payment};

verus! {

/// Seconds a cached payment stays usable: thirty days.
pub const PAYMENT_EXPIRATION_SECS: u64 = 3600 * 24 * 30;

/// A receipt cached under a content fingerprint at a point in time.
pub struct CachedPayment {
    pub receipt: Receipt,
    pub file_hash: String,
    pub timestamp: u64,
}

/// One stored cache record; archive records are kept apart from
/// single-file records, as an archive fingerprint covers a whole listing.
pub struct CacheRecord {
    pub payment: CachedPayment,
    pub archive: bool,
}

/// A record that cleanup drops: strictly older than the retention window.
pub open spec fn record_expired(rec: CacheRecord, now: u64) -> bool {
    now - rec.payment.timestamp > PAYMENT_EXPIRATION_SECS
}

/// A record that a lookup may return: fingerprint match, right kind, and
/// strictly within the retention window.
pub open spec fn record_matches(
    rec: CacheRecord,
    fingerprint: Seq<char>,
    now: u64,
    archive_only: bool,
) -> bool {
    (archive_only ==> rec.archive) && rec.payment.file_hash@ == fingerprint && now
        - rec.payment.timestamp < PAYMENT_EXPIRATION_SECS
}

/// The receipt mapping the first non-expired matching record carries, or
/// `None` when no record matches.
pub open spec fn spec_lookup(
    s: Seq<CacheRecord>,
    fingerprint: Seq<char>,
    now: u64,
    archive_only: bool,
) -> Option<Map<Addr, (Seq<Payment>, Amount)>>
    decreases s.len(),
{
    if s.len() == 0 {
        None
    } else if record_matches(s.first(), fingerprint, now, archive_only) {
        Some(s.first().payment.receipt@)
    } else {
        spec_lookup(s.drop_first(), fingerprint, now, archive_only)
    }
}

/// Local store of previously obtained receipts.
pub struct PaymentCache {
    pub records: Vec<CacheRecord>,
}

impl PaymentCache {
    /// Every cached receipt is well-formed.
    pub open spec fn wf(&self) -> bool {
        forall|k: int|
            0 <= k < self.records@.len() ==> (#[trigger] self.records@[k]).payment.receipt.wf()
    }

    pub fn new() -> (r: PaymentCache)
        ensures
            r.wf(),
            r.records@.len() == 0,
    {
        PaymentCache { records: Vec::new() }
    }

    /// Persists a timestamped single-file record.
    pub fn save_payment(&mut self, file_hash: String, receipt: Receipt, now: u64)
        requires
            old(self).wf(),
            receipt.wf(),
        ensures
            final(self).wf(),
            final(self).records@.len() == old(self).records@.len() + 1,
            final(self).records@.take(old(self).records@.len() as int) == old(self).records@,
            final(self).records@.last().payment.file_hash@ == file_hash@,
            final(self).records@.last().payment.timestamp == now,
            final(self).records@.last().payment.receipt@ == receipt@,
            final(self).records@.last().archive == false,
    {
        let ghost before = self.records@;
        let record = CacheRecord {
            payment: CachedPayment { receipt, file_hash, timestamp: now },
            archive: false,
        };
        self.records.push(record);
        proof {
            assert(self.records@.take(before.len() as int) =~= before);
        }
    }

    /// Persists a timestamped archive record.
    pub fn save_archive_payment(&mut self, archive_hash: String, receipt: Receipt, now: u64)
        requires
            old(self).wf(),
            receipt.wf(),
        ensures
            final(self).wf(),
            final(self).records@.len() == old(self).records@.len() + 1,
            final(self).records@.take(old(self).records@.len() as int) == old(self).records@,
            final(self).records@.last().payment.file_hash@ == archive_hash@,
            final(self).records@.last().payment.timestamp == now,
            final(self).records@.last().payment.receipt@ == receipt@,
            final(self).records@.last().archive == true,
    {
        let ghost before = self.records@;
        let record = CacheRecord {
            payment: CachedPayment { receipt, file_hash: archive_hash, timestamp: now },
            archive: true,
        };
        self.records.push(record);
        proof {
            assert(self.records@.take(before.len() as int) =~= before);
        }
    }

    /// Drops every record strictly older than the retention window.
    pub fn cleanup_outdated_payments(&mut self, now: u64)
        requires
            old(self).wf(),
        ensures
            final(self).wf(),
            final(self).records@ == old(self).records@.filter(
                |rec: CacheRecord| !record_expired(rec, now),
            ),
    {
        let ghost pred = |rec: CacheRecord| !record_expired(rec, now);
        let mut drained: Vec<CacheRecord> = Vec::new();
        core::mem::swap(&mut self.records, &mut drained);
        let ghost source = drained@;
        let n = drained.len();
        let mut i: usize = 0;
        proof {
            assert(source.take(0).filter(pred) =~= Seq::<CacheRecord>::empty());
        }
        while i < n
            invariant
                n == source.len(),
                0 <= i <= n,
                drained@ == source.skip(i as int),
                self.records@ == source.take(i as int).filter(pred),
                pred == (|rec: CacheRecord| !record_expired(rec, now)),
                forall|k: int| 0 <= k < source.len() ==> (#[trigger] source[k]).payment.receipt.wf(),
                forall|k: int|
                    0 <= k < self.records@.len() ==> (
                    #[trigger] self.records@[k]).payment.receipt.wf(),
            decreases n - i,
        {
            proof {
                assert(source.skip(i as int).first() == source[i as int]);
                assert(source.skip(i as int).subrange(1, source.skip(i as int).len() as int)
                    =~= source.skip(i + 1));
            }
            let rec = drained.remove(0);
            let ts = rec.payment.timestamp;
            let keep = (now as u128) <= (ts as u128) + (PAYMENT_EXPIRATION_SECS as u128);
            if keep {
                self.records.push(rec);
            }
            proof {
                assert(keep == !record_expired(source[i as int], now));
                assert(source.take(i + 1).drop_last() =~= source.take(i as int));
                assert(source.take(i + 1).last() == source[i as int]);
                reveal(Seq::filter);
                assert(self.records@ =~= source.take(i + 1).filter(pred));
            }
            i += 1;
        }
        proof {
            assert(source.take(n as int) =~= source);
        }
    }

    /// Returns the receipt of the first non-expired single-file record
    /// with this fingerprint, cleaning up expired records first.
    pub fn load_payment_for_file(&mut self, file_hash: &String, now: u64) -> (r: Option<Receipt>)
        requires
            old(self).wf(),
        ensures
            final(self).wf(),
            final(self).records@ == old(self).records@.filter(
                |rec: CacheRecord| !record_expired(rec, now),
            ),
            match r {
                Some(receipt) => receipt.wf() && spec_lookup(
                    final(self).records@,
                    file_hash@,
                    now,
                    false,
                ) == Some(receipt@),
                None => spec_lookup(final(self).records@, file_hash@, now, false).is_none(),
            },
    {
        self.cleanup_outdated_payments(now);
        lookup_record(&self.records, file_hash, now, false)
    }

    /// Returns the receipt of the first non-expired archive record with
    /// this fingerprint, cleaning up expired records first.
    pub fn load_archive_payment(&mut self, archive_hash: &String, now: u64) -> (r: Option<Receipt>)
        requires
            old(self).wf(),
        ensures
            final(self).wf(),
            final(self).records@ == old(self).records@.filter(
                |rec: CacheRecord| !record_expired(rec, now),
            ),
            match r {
                Some(receipt) => receipt.wf() && spec_lookup(
                    final(self).records@,
                    archive_hash@,
                    now,
                    true,
                ) == Some(receipt@),
                None => spec_lookup(final(self).records@, archive_hash@, now, true).is_none(),
            },
    {
        self.cleanup_outdated_payments(now);
        lookup_record(&self.records, archive_hash, now, true)
    }

    /// Removes every record.
    pub fn clear_cache(&mut self)
        ensures
            final(self).wf(),
            final(self).records@.len() == 0,
    {
        self.records = Vec::new();
    }
}

/// Scans the records in order for the first match.
fn lookup_record(records: &Vec<CacheRecord>, fingerprint: &String, now: u64, archive_only: bool) -> (r:
    Option<Receipt>)
    requires
        forall|k: int| 0 <= k < records@.len() ==> (#[trigger] records@[k]).payment.receipt.wf(),
    ensures
        match r {
            Some(receipt) => receipt.wf() && spec_lookup(records@, fingerprint@, now, archive_only)
                == Some(receipt@),
            None => spec_lookup(records@, fingerprint@, now, archive_only).is_none(),
        },
{
    let n = records.len();
    let mut i: usize = 0;
    proof {
        assert(records@.skip(0) =~= records@);
    }
    while i < n
        invariant
            n == records@.len(),
            0 <= i <= n,
            forall|k: int| 0 <= k < records@.len() ==> (#[trigger] records@[k]).payment.receipt.wf(),
            spec_lookup(records@, fingerprint@, now, archive_only) == spec_lookup(
                records@.skip(i as int),
                fingerprint@,
                now,
                archive_only,
            ),
        decreases n - i,
    {
        let rec = &records[i];
        let kind_ok = !archive_only || rec.archive;
        let hash_ok = rec.payment.file_hash.eq(fingerprint);
        let fresh = (now as u128) < (rec.payment.timestamp as u128) + (
        PAYMENT_EXPIRATION_SECS as u128);
        proof {
            assert(records@.skip(i as int).first() == records@[i as int]);
            assert(records@.skip(i as int).drop_first() =~= records@.skip(i + 1));
        }
        if kind_ok && hash_ok && fresh {
            proof {
                assert(record_matches(records@[i as int], fingerprint@, now, archive_only));
            }
            return Some(rec.payment.receipt.clone_receipt());
        }
        proof {
            assert(!record_matches(records@[i as int], fingerprint@, now, archive_only));
        }
        i += 1;
    }
    proof {
        assert(records@.skip(n as int) =~= Seq::<CacheRecord>::empty());
    }
    None
}

/// Law: a receipt saved under a fingerprint no other record carries is
/// returned by a lookup before expiry; once the retention window has
/// passed, the lookup misses and cleanup drops the stale record.
pub proof fn lemma_cache_round_trip(records: Seq<CacheRecord>, rec: CacheRecord, now: u64)
    requires
        forall|k: int|
            0 <= k < records.len() ==> (#[trigger] records[k]).payment.file_hash@
                != rec.payment.file_hash@,
        rec.archive == false,
    ensures
        now - rec.payment.timestamp < PAYMENT_EXPIRATION_SECS ==> spec_lookup(
            records.push(rec),
            rec.payment.file_hash@,
            now,
            false,
        ) == Some(rec.payment.receipt@),
        now - rec.payment.timestamp >= PAYMENT_EXPIRATION_SECS ==> spec_lookup(
            records.push(rec),
            rec.payment.file_hash@,
            now,
            false,
        ).is_none(),
        now - rec.payment.timestamp > PAYMENT_EXPIRATION_SECS ==> records.push(rec).filter(
            |x: CacheRecord| !record_expired(x, now),
        ) == records.filter(|x: CacheRecord| !record_expired(x, now)),
    decreases records.len(),
{
    let fp = rec.payment.file_hash@;
    if records.len() == 0 {
        let s = records.push(rec);
        assert(s.first() == rec);
        assert(s.drop_first() =~= Seq::<CacheRecord>::empty());
        if now - rec.payment.timestamp < PAYMENT_EXPIRATION_SECS {
            assert(record_matches(s.first(), fp, now, false));
            assert(spec_lookup(s, fp, now, false) == Some(rec.payment.receipt@));
        } else {
            assert(!record_matches(s.first(), fp, now, false));
            assert(spec_lookup(s, fp, now, false) == spec_lookup(
                Seq::<CacheRecord>::empty(),
                fp,
                now,
                false,
            ));
            assert(spec_lookup(Seq::<CacheRecord>::empty(), fp, now, false).is_none());
        }
        reveal(Seq::filter);
        assert(s.drop_last() =~= records);
    } else {
        let s = records.push(rec);
        assert(s.first() == records.first());
        assert(s.drop_first() =~= records.drop_first().push(rec));
        assert(forall|k: int|
            0 <= k < records.drop_first().len() ==> records.drop_first()[k] == records[k + 1]);
        lemma_cache_round_trip(records.drop_first(), rec, now);
        assert(!record_matches(s.first(), fp, now, false));
        if now - rec.payment.timestamp > PAYMENT_EXPIRATION_SECS {
            reveal(Seq::filter);
            assert(s.drop_last() =~= records);
        }
    }
}

} // verus!
