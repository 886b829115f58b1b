use project_dave::cache::{PaymentCache, PAYMENT_EXPIRATION_SECS};
use project_dave::receipt::Receipt;
use project_dave::types::Payment;

fn receipt_with(addr: u64, amount: u128) -> Receipt {
    let mut receipt = Receipt::new();
    receipt.insert(addr, vec![Payment { quote_hash: 1, rewards_address: 2, amount }], amount);
    receipt
}

#[test]
fn test_payment_cache() {
    let mut cache = PaymentCache::new();
    // the fingerprint stands for the hash of a small file's content
    let fingerprint = String::from("test content");
    let receipt = Receipt::new();
    let now: u64 = 1_000_000;

    cache.save_payment(fingerprint.clone(), receipt, now);

    let loaded = cache.load_payment_for_file(&fingerprint, now);
    assert!(loaded.is_some());
}

#[test]
fn load_before_expiry_returns_the_saved_receipt() {
    let mut cache = PaymentCache::new();
    let fingerprint = String::from("fp-1");
    let now: u64 = 10_000;
    cache.save_payment(fingerprint.clone(), receipt_with(3, 30), now);

    let later: u64 = now + PAYMENT_EXPIRATION_SECS - 1;
    let loaded = cache.load_payment_for_file(&fingerprint, later).unwrap();
    assert_eq!(loaded.amount_of(3), Some(30));
}

#[test]
fn load_after_expiry_misses_and_removes_the_stale_record() {
    let mut cache = PaymentCache::new();
    let fingerprint = String::from("fp-2");
    let now: u64 = 10_000;
    cache.save_payment(fingerprint.clone(), receipt_with(3, 30), now);

    let much_later: u64 = now + PAYMENT_EXPIRATION_SECS + 1;
    assert!(cache.load_payment_for_file(&fingerprint, much_later).is_none());
    // cleanup ran as a side effect of the load: the stale record is gone
    assert_eq!(cache.records.len(), 0);
}

#[test]
fn a_record_exactly_at_the_window_edge_is_not_returned_but_not_yet_dropped() {
    let mut cache = PaymentCache::new();
    let fingerprint = String::from("fp-3");
    let now: u64 = 10_000;
    cache.save_payment(fingerprint.clone(), receipt_with(1, 1), now);

    let edge: u64 = now + PAYMENT_EXPIRATION_SECS;
    assert!(cache.load_payment_for_file(&fingerprint, edge).is_none());
    assert_eq!(cache.records.len(), 1);
}

#[test]
fn archive_lookup_sees_only_archive_records() {
    let mut cache = PaymentCache::new();
    let fingerprint = String::from("fp-4");
    let now: u64 = 5_000;
    cache.save_payment(fingerprint.clone(), receipt_with(1, 10), now);
    assert!(cache.load_archive_payment(&fingerprint, now).is_none());

    cache.save_archive_payment(fingerprint.clone(), receipt_with(2, 20), now);
    let loaded = cache.load_archive_payment(&fingerprint, now).unwrap();
    assert_eq!(loaded.amount_of(2), Some(20));
}

#[test]
fn cleanup_drops_only_expired_records() {
    let mut cache = PaymentCache::new();
    let now: u64 = PAYMENT_EXPIRATION_SECS * 2;
    cache.save_payment(String::from("old"), receipt_with(1, 1), 1);
    cache.save_payment(String::from("new"), receipt_with(2, 2), now);
    cache.cleanup_outdated_payments(now);
    assert_eq!(cache.records.len(), 1);
    assert!(cache.load_payment_for_file(&String::from("new"), now).is_some());
}

#[test]
fn clear_cache_removes_every_record() {
    let mut cache = PaymentCache::new();
    cache.save_payment(String::from("a"), receipt_with(1, 1), 1);
    cache.save_archive_payment(String::from("b"), receipt_with(2, 2), 1);
    cache.clear_cache();
    assert_eq!(cache.records.len(), 0);
}
