use project_dave::orders::{
    resolve_order, order_step, OrderEvent, OrderMessage, OrderResolution, PaymentOrderManager,
    IDLE_PAYMENT_TIMEOUT_SECS,
};
use project_dave::types::Payment;

fn payment(amount: u128) -> Payment {
    Payment { quote_hash: 1, rewards_address: 2, amount }
}

fn received(elapsed_secs: u64, message: OrderMessage) -> OrderEvent {
    OrderEvent { elapsed_secs, message: Some(message) }
}

#[test]
fn create_order_registers_a_fresh_id() {
    let mut manager = PaymentOrderManager::new();
    let order = manager.create_order(vec![payment(5)]);
    assert!(manager.contains_order(order.id));
    assert_eq!(order.payments.len(), 1);

    let second = manager.create_order(vec![payment(7)]);
    assert_ne!(order.id, second.id);
    assert!(manager.contains_order(order.id));
    assert!(manager.contains_order(second.id));
}

#[test]
fn messages_are_delivered_in_order() {
    let mut manager = PaymentOrderManager::new();
    let order = manager.create_order(vec![]);
    manager.send_order_message(order.id, OrderMessage::KeepAlive);
    manager.confirm_payment(order.id);
    assert_eq!(manager.next_message(order.id), Some(OrderMessage::KeepAlive));
    assert_eq!(manager.next_message(order.id), Some(OrderMessage::Completed));
    assert_eq!(manager.next_message(order.id), None);
}

#[test]
fn remove_order_frees_the_id() {
    let mut manager = PaymentOrderManager::new();
    let order = manager.create_order(vec![]);
    let other = manager.create_order(vec![]);
    manager.remove_order(order.id);
    assert!(!manager.contains_order(order.id));
    assert!(manager.contains_order(other.id));
}

#[test]
fn keepalives_under_the_idle_timeout_never_fail_an_order() {
    let events = vec![
        received(5, OrderMessage::KeepAlive),
        received(599, OrderMessage::KeepAlive),
        received(1, OrderMessage::KeepAlive),
    ];
    assert_eq!(resolve_order(&events), OrderResolution::Pending);
}

#[test]
fn silence_reaching_the_idle_timeout_fails_exactly_once() {
    // the idle timer fires after 600 seconds without a message
    let events = vec![
        received(10, OrderMessage::KeepAlive),
        OrderEvent { elapsed_secs: IDLE_PAYMENT_TIMEOUT_SECS, message: None },
    ];
    assert_eq!(resolve_order(&events), OrderResolution::Failed);

    // whatever arrives later, the outcome does not change: one terminal
    // outcome per order
    let mut more = events.clone();
    more.push(received(1, OrderMessage::Completed));
    assert_eq!(resolve_order(&more), OrderResolution::Failed);
}

#[test]
fn completion_concludes_success_and_is_terminal() {
    let events = vec![received(3, OrderMessage::Completed)];
    assert_eq!(resolve_order(&events), OrderResolution::Succeeded);

    let mut more = events.clone();
    more.push(received(1, OrderMessage::Cancelled));
    assert_eq!(resolve_order(&more), OrderResolution::Succeeded);
}

#[test]
fn cancellation_and_closed_stream_conclude_failure() {
    assert_eq!(
        order_step(OrderResolution::Pending, received(1, OrderMessage::Cancelled)),
        OrderResolution::Failed
    );
    assert_eq!(
        order_step(OrderResolution::Pending, OrderEvent { elapsed_secs: 1, message: None }),
        OrderResolution::Failed
    );
    // a message that arrives only at the timeout is too late
    assert_eq!(
        order_step(
            OrderResolution::Pending,
            received(IDLE_PAYMENT_TIMEOUT_SECS, OrderMessage::Completed)
        ),
        OrderResolution::Failed
    );
}
