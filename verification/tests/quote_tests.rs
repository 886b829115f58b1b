use project_dave::quote::{combine_quotes, receipt_from_store_quotes, StoreQuote};
use project_dave::types::Payment;

fn payment(quote_hash: u64, rewards_address: u64, amount: u128) -> Payment {
    Payment { quote_hash, rewards_address, amount }
}

#[test]
fn total_cost_sums_every_payment_of_every_entry() {
    let mut quote = StoreQuote::new();
    quote.insert(1, vec![payment(1, 1, 3), payment(2, 2, 4)]);
    quote.insert(2, vec![payment(3, 3, 5)]);
    assert_eq!(quote.total_cost(), Some(12));
}

#[test]
fn has_payments_is_false_exactly_when_total_cost_is_zero() {
    let mut free = StoreQuote::new();
    free.insert(1, vec![payment(1, 1, 0), payment(2, 2, 0)]);
    assert_eq!(free.total_cost(), Some(0));
    assert!(!free.has_payments());

    let empty = StoreQuote::new();
    assert!(!empty.has_payments());

    let mut paid = StoreQuote::new();
    paid.insert(1, vec![payment(1, 1, 0), payment(2, 2, 1)]);
    assert!(paid.has_payments());
}

#[test]
fn combine_quotes_is_last_wins_on_overlap() {
    let mut q1 = StoreQuote::new();
    q1.insert(1, vec![payment(1, 1, 10)]);
    q1.insert(2, vec![payment(2, 2, 20)]);
    let mut q2 = StoreQuote::new();
    q2.insert(2, vec![payment(3, 3, 99)]);

    let combined = combine_quotes(vec![q1, q2]);
    assert!(combined.contains_key(1));
    assert!(combined.contains_key(2));
    assert_eq!(combined.total_cost(), Some(109));
}

#[test]
fn receipt_from_store_quotes_carries_each_address_and_its_summed_cost() {
    let mut quote = StoreQuote::new();
    quote.insert(7, vec![payment(1, 1, 3), payment(2, 2, 4)]);
    quote.insert(8, vec![payment(3, 3, 5)]);

    let receipt = receipt_from_store_quotes(&quote);
    assert_eq!(receipt.len(), 2);
    assert_eq!(receipt.amount_of(7), Some(7));
    assert_eq!(receipt.amount_of(8), Some(5));
    assert!(!receipt.contains_key(9));
}

#[test]
fn quote_payments_concatenate_in_entry_order() {
    let mut quote = StoreQuote::new();
    quote.insert(1, vec![payment(1, 1, 2)]);
    quote.insert(2, vec![payment(2, 2, 3), payment(3, 3, 4)]);
    let payments = quote.payments();
    assert_eq!(payments.len(), 3);
    let total: u128 = payments.iter().map(|p| p.amount).sum();
    assert_eq!(total, 9);
}

#[test]
fn quote_addresses_keep_entry_order() {
    let mut quote = StoreQuote::new();
    quote.insert(5, vec![]);
    quote.insert(3, vec![]);
    quote.insert(4, vec![]);
    assert_eq!(quote.addresses(), vec![5, 3, 4]);
}
