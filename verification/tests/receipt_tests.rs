use project_dave::receipt::{
    merge_receipts, validate_receipt_coverage_with_content_addresses, Receipt,
};
use project_dave::types::Payment;

fn payment(quote_hash: u64, rewards_address: u64, amount: u128) -> Payment {
    Payment { quote_hash, rewards_address, amount }
}

#[test]
fn merge_two_receipts_is_last_wins_on_overlap() {
    let mut r1 = Receipt::new();
    r1.insert(1, vec![payment(11, 21, 10)], 10);
    r1.insert(2, vec![payment(12, 22, 5)], 5);
    let mut r2 = Receipt::new();
    r2.insert(1, vec![payment(13, 23, 40)], 40);
    r2.insert(3, vec![payment(14, 24, 7)], 7);

    let merged = merge_receipts(vec![r1, r2]);
    assert_eq!(merged.len(), 3);
    // overlap: the second receipt's entry wins
    assert_eq!(merged.amount_of(1), Some(40));
    // addresses only one side holds are kept
    assert_eq!(merged.amount_of(2), Some(5));
    assert_eq!(merged.amount_of(3), Some(7));
}

#[test]
fn merge_single_receipt_returns_it_unchanged() {
    let mut r = Receipt::new();
    r.insert(9, vec![payment(1, 2, 3)], 3);
    let addresses_before = r.addresses();
    let merged = merge_receipts(vec![r]);
    assert_eq!(merged.addresses(), addresses_before);
    assert_eq!(merged.amount_of(9), Some(3));
}

#[test]
fn coverage_is_complete_iff_every_required_address_is_a_key() {
    let mut receipt = Receipt::new();
    receipt.insert(1, vec![], 0);
    receipt.insert(2, vec![], 0);

    let complete = validate_receipt_coverage_with_content_addresses(&receipt, &vec![1, 2]);
    assert!(complete.is_complete);
    assert!(complete.missing_chunks.is_empty());

    let incomplete = validate_receipt_coverage_with_content_addresses(&receipt, &vec![1, 3, 3]);
    assert!(!incomplete.is_complete);
    // missing addresses keep requirement order and multiplicity
    assert_eq!(incomplete.missing_chunks, vec![3, 3]);
}

#[test]
fn coverage_of_empty_requirement_set_is_vacuously_complete() {
    let receipt = Receipt::new();
    let validation = validate_receipt_coverage_with_content_addresses(&receipt, &vec![]);
    assert!(validation.is_complete);
    assert!(validation.missing_chunks.is_empty());
}

#[test]
fn receipt_insert_replaces_existing_entry() {
    let mut receipt = Receipt::new();
    receipt.insert(5, vec![payment(1, 1, 1)], 1);
    receipt.insert(5, vec![payment(2, 2, 2)], 2);
    assert_eq!(receipt.len(), 1);
    assert_eq!(receipt.amount_of(5), Some(2));
    assert!(receipt.contains_key(5));
    assert!(!receipt.contains_key(6));
}
