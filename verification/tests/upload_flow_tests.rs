use project_dave::orders::{
    resolve_order, OrderEvent, OrderMessage, OrderResolution, PaymentOrderManager,
};
use project_dave::quote::StoreQuote;
use project_dave::staging::{PendingUploadData, PendingUploads};
use project_dave::types::{Chunk, Payment};
use project_dave::upload::{
    calculate_total_size, confirm_upload_payment, follow_up_after_wait, plan_chunk_batches,
    plan_commit_steps, start_upload_flow, CommitStep, ConfirmError, File, PaymentWaitFollowUp,
    StartUploadDecision, UploadProgress, MAX_CHUNKS_PER_BATCH,
};

fn payload_with_cost(amount_per_chunk: u128) -> PendingUploadData {
    let mut store_quote = StoreQuote::new();
    store_quote.insert(
        1,
        vec![Payment { quote_hash: 1, rewards_address: 9, amount: amount_per_chunk }],
    );
    store_quote.insert(
        2,
        vec![Payment { quote_hash: 2, rewards_address: 9, amount: amount_per_chunk }],
    );
    PendingUploadData::SingleFile {
        file: File { name: String::from("photo.png"), path: String::from("/tmp/photo.png") },
        datamap: 77,
        chunks: vec![Chunk { addr: 1, size: 5 }, Chunk { addr: 2, size: 5 }],
        store_quote,
        secret_key: 42,
        add_to_vault: false,
    }
}

#[test]
fn zero_cost_upload_completes_immediately_without_a_payment_order() {
    let mut orders = PaymentOrderManager::new();
    let mut staging = PendingUploads::new();
    // a ten-byte file whose two chunks are quoted at zero cost
    let decision = start_upload_flow(
        &mut orders,
        &mut staging,
        String::from("upload-free"),
        1,
        10,
        payload_with_cost(0),
    );
    match decision {
        StartUploadDecision::CommitNow { events, .. } => {
            assert_eq!(events.len(), 3);
            assert!(matches!(
                &events[0],
                UploadProgress::Started { total_files: 1, total_size: 10, .. }
            ));
            assert!(matches!(
                &events[1],
                UploadProgress::Uploading { chunks_uploaded: 0, total_chunks: 2, .. }
            ));
            assert!(matches!(
                &events[2],
                UploadProgress::Completed { total_files: 1, total_bytes: 10, .. }
            ));
        }
        StartUploadDecision::AwaitPayment { .. } => panic!("zero cost must not await payment"),
    }
    // no PaymentOrder was ever created, nothing was staged
    assert_eq!(orders.orders.len(), 0);
    assert_eq!(staging.uploads.len(), 0);
}

#[test]
fn nonzero_cost_upload_emits_a_fresh_payment_order_and_stages_the_payload() {
    let mut orders = PaymentOrderManager::new();
    let mut staging = PendingUploads::new();
    let id = String::from("upload-paid");
    let decision =
        start_upload_flow(&mut orders, &mut staging, id.clone(), 1, 10, payload_with_cost(3));
    let order = match decision {
        StartUploadDecision::AwaitPayment { order, events } => {
            assert_eq!(events.len(), 1);
            assert!(matches!(&events[0], UploadProgress::RequestingPayment { .. }));
            order
        }
        StartUploadDecision::CommitNow { .. } => panic!("a paid upload must await payment"),
    };
    assert!(orders.contains_order(order.id));
    let total: u128 = order.payments.iter().map(|p| p.amount).sum();
    assert_eq!(total, 6);

    // the user completes the payment: the wait succeeds and the commit
    // takes the staged payload and builds the receipt
    let events = vec![OrderEvent { elapsed_secs: 3, message: Some(OrderMessage::Completed) }];
    assert_eq!(resolve_order(&events), OrderResolution::Succeeded);
    match follow_up_after_wait(&id, String::new(), OrderResolution::Succeeded) {
        PaymentWaitFollowUp::Commit => {}
        PaymentWaitFollowUp::Fail { .. } => panic!("success must commit"),
    }

    let plan = confirm_upload_payment(&mut staging, &id).expect("staged payload");
    assert!(plan.receipt.contains_key(1));
    assert!(plan.receipt.contains_key(2));
    assert_eq!(plan.receipt.amount_of(1), Some(3));

    // the chunks are then uploaded, batch by batch, before completion
    let batches = plan_chunk_batches(&vec![Chunk { addr: 1, size: 5 }, Chunk { addr: 2, size: 5 }]);
    assert_eq!(batches.len(), 1);

    // a repeat confirmation is a user-visible error, not a silent retry
    assert!(matches!(
        confirm_upload_payment(&mut staging, &id),
        Err(ConfirmError::NotFound)
    ));
}

#[test]
fn cancelled_payment_fails_the_upload_with_zero_network_writes() {
    let mut orders = PaymentOrderManager::new();
    let mut staging = PendingUploads::new();
    let id = String::from("upload-cancelled");
    let decision =
        start_upload_flow(&mut orders, &mut staging, id.clone(), 1, 10, payload_with_cost(3));
    assert!(matches!(decision, StartUploadDecision::AwaitPayment { .. }));

    let events = vec![OrderEvent { elapsed_secs: 3, message: Some(OrderMessage::Cancelled) }];
    assert_eq!(resolve_order(&events), OrderResolution::Failed);
    match follow_up_after_wait(&id, String::from("payment cancelled"), OrderResolution::Failed) {
        PaymentWaitFollowUp::Fail { event } => {
            assert!(matches!(event, UploadProgress::Failed { .. }));
        }
        PaymentWaitFollowUp::Commit => panic!("failure must not commit"),
    }
    // nothing was committed: the payload was never taken, no receipt was
    // built, and no write action exists
    assert_eq!(staging.uploads.len(), 1);
}

#[test]
fn confirm_of_unknown_upload_reports_not_found() {
    let mut staging = PendingUploads::new();
    assert!(matches!(
        confirm_upload_payment(&mut staging, &String::from("missing")),
        Err(ConfirmError::NotFound)
    ));
}

#[test]
fn total_size_sums_and_detects_overflow() {
    assert_eq!(calculate_total_size(&vec![1, 2, 3]), Some(6));
    assert_eq!(calculate_total_size(&vec![]), Some(0));
    assert_eq!(calculate_total_size(&vec![u64::MAX, 1]), None);
}

#[test]
fn chunk_batches_respect_the_batch_limit() {
    let chunks: Vec<Chunk> =
        (0..(MAX_CHUNKS_PER_BATCH as u64 + 3)).map(|i| Chunk { addr: i, size: 1 }).collect();
    let batches = plan_chunk_batches(&chunks);
    assert_eq!(batches.len(), 2);
    assert_eq!(batches[0].len(), MAX_CHUNKS_PER_BATCH);
    assert_eq!(batches[1].len(), 3);
    assert_eq!(batches[0][0].addr, 0);
    assert_eq!(batches[1][2].addr, MAX_CHUNKS_PER_BATCH as u64 + 2);
}

#[test]
fn commit_steps_order_chunks_before_vault_before_local_record() {
    let mut store_quote = StoreQuote::new();
    store_quote.insert(1, vec![]);
    let payload = PendingUploadData::SingleFile {
        file: File { name: String::from("v.txt"), path: String::from("/tmp/v.txt") },
        datamap: 1,
        chunks: vec![Chunk { addr: 1, size: 4 }, Chunk { addr: 2, size: 4 }],
        store_quote,
        secret_key: 3,
        add_to_vault: true,
    };
    let steps = plan_commit_steps(&payload);
    assert_eq!(steps.len(), 3);
    assert!(matches!(&steps[0], CommitStep::UploadChunkBatch { batch } if batch.len() == 2));
    assert!(matches!(steps[1], CommitStep::VaultWrite));
    assert!(matches!(steps[2], CommitStep::WriteLocalRecord));
}

#[test]
fn commit_steps_skip_the_vault_write_when_not_requested() {
    let payload = payload_with_cost(1);
    let steps = plan_commit_steps(&payload);
    assert_eq!(steps.len(), 2);
    assert!(matches!(steps[0], CommitStep::UploadChunkBatch { .. }));
    assert!(matches!(steps[1], CommitStep::WriteLocalRecord));
}

#[test]
fn public_archive_commit_publishes_datamaps_between_chunks_and_vault() {
    let mut store_quote = StoreQuote::new();
    store_quote.insert(1, vec![]);
    let payload = PendingUploadData::PublicArchive {
        files: vec![File { name: String::from("a.txt"), path: String::from("/tmp/a.txt") }],
        archive_name: String::from("arch"),
        archive_datamap: 90,
        file_datamaps: vec![70, 80],
        chunks: vec![Chunk { addr: 1, size: 4 }],
        store_quote,
        add_to_vault: true,
        vault_secret_key: Some(5),
    };
    let steps = plan_commit_steps(&payload);
    assert_eq!(steps.len(), 4);
    assert!(matches!(steps[0], CommitStep::UploadChunkBatch { .. }));
    // per-file datamaps first, the archive datamap last, so the archive
    // reference goes up after everything it names
    match &steps[1] {
        CommitStep::UploadDatamaps { datamaps } => assert_eq!(datamaps, &vec![70, 80, 90]),
        _ => panic!("datamaps must follow the file chunks"),
    }
    assert!(matches!(steps[2], CommitStep::VaultWrite));
    assert!(matches!(steps[3], CommitStep::WriteLocalRecord));
}

#[test]
fn public_single_file_commit_publishes_its_datamap() {
    let mut store_quote = StoreQuote::new();
    store_quote.insert(1, vec![]);
    let payload = PendingUploadData::SingleFilePublic {
        file: File { name: String::from("a.txt"), path: String::from("/tmp/a.txt") },
        datamap: 44,
        chunks: vec![Chunk { addr: 1, size: 4 }],
        store_quote,
        add_to_vault: false,
        vault_secret_key: None,
    };
    let steps = plan_commit_steps(&payload);
    assert_eq!(steps.len(), 3);
    assert!(matches!(steps[0], CommitStep::UploadChunkBatch { .. }));
    match &steps[1] {
        CommitStep::UploadDatamaps { datamaps } => assert_eq!(datamaps, &vec![44]),
        _ => panic!("the datamap must follow the file chunks"),
    }
    assert!(matches!(steps[2], CommitStep::WriteLocalRecord));
}

#[test]
fn payment_order_lists_exactly_the_nonzero_payments() {
    let mut orders = PaymentOrderManager::new();
    let mut staging = PendingUploads::new();
    // one free chunk among paid ones: the order lists only the paid claims
    let mut store_quote = StoreQuote::new();
    store_quote.insert(1, vec![Payment { quote_hash: 11, rewards_address: 9, amount: 3 }]);
    store_quote.insert(2, vec![Payment { quote_hash: 12, rewards_address: 9, amount: 0 }]);
    store_quote.insert(3, vec![Payment { quote_hash: 13, rewards_address: 9, amount: 4 }]);
    let payload = PendingUploadData::SingleFile {
        file: File { name: String::from("m.txt"), path: String::from("/tmp/m.txt") },
        datamap: 1,
        chunks: vec![],
        store_quote,
        secret_key: 0,
        add_to_vault: false,
    };
    let decision = start_upload_flow(
        &mut orders,
        &mut staging,
        String::from("upload-mixed"),
        1,
        1,
        payload,
    );
    match decision {
        StartUploadDecision::AwaitPayment { order, .. } => {
            assert_eq!(order.payments.len(), 2);
            assert_eq!(order.payments[0].quote_hash, 11);
            assert_eq!(order.payments[0].amount, 3);
            assert_eq!(order.payments[1].quote_hash, 13);
            assert_eq!(order.payments[1].amount, 4);
        }
        StartUploadDecision::CommitNow { .. } => panic!("a paid upload must await payment"),
    }
}
