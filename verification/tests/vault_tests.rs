use project_dave::receipt::Receipt;
use project_dave::vault::{
    addresses_to_pay, chain_from_entries, split_into_segments, vault_quote, vault_update,
    LedgerEntry, VaultChain, VaultChainError, VaultCommitError, VaultWriteAction,
    SCRATCHPADS_PER_LEDGER_ENTRY, SEGMENT_SIZE,
};

fn entry(own: u64, next: u64, first_pad: u64) -> LedgerEntry {
    let pads: Vec<u64> = (0..SCRATCHPADS_PER_LEDGER_ENTRY as u64).map(|k| first_pad + k).collect();
    LedgerEntry { own_derivation: own, next_derivation: next, scratchpad_derivations: pads }
}

/// A model of the network's scratchpad records, for replaying commits.
struct ModelStore {
    records: Vec<(u64, Vec<u8>)>,
}

impl ModelStore {
    fn new() -> ModelStore {
        ModelStore { records: Vec::new() }
    }

    fn put(&mut self, derivation: u64, content: Vec<u8>) {
        for slot in self.records.iter_mut() {
            if slot.0 == derivation {
                slot.1 = content;
                return;
            }
        }
        self.records.push((derivation, content));
    }

    fn get(&self, derivation: u64) -> Option<&Vec<u8>> {
        self.records.iter().find(|slot| slot.0 == derivation).map(|slot| &slot.1)
    }

    fn apply(&mut self, actions: &[VaultWriteAction]) {
        for action in actions {
            match action {
                VaultWriteAction::PutLedgerEntry { .. } => {}
                VaultWriteAction::UpdateScratchpad { derivation, content } => {
                    self.put(*derivation, content.clone());
                }
                VaultWriteAction::CreateScratchpad { derivation, content } => {
                    self.put(*derivation, content.clone());
                }
            }
        }
    }
}

fn quote_commit_read_back(data: Vec<u8>) {
    let chain = VaultChain::empty(100);
    let plan = vault_quote(chain, &data).expect("fresh derivations should not collide");

    let segment_count = plan.segment_count;
    let existence: Vec<bool> = vec![false; segment_count];
    let to_pay = addresses_to_pay(&plan, &existence);

    // pay everything the quote discovered
    let mut receipt = Receipt::new();
    for addr in &to_pay {
        receipt.insert(*addr, vec![], 1);
    }

    let actions = vault_update(&data, &receipt, &plan, &existence).expect("receipt covers all");

    // replay the writes against a model of the network, then re-read the
    // chain's slots in discovery order
    let mut store = ModelStore::new();
    store.apply(&actions);

    let (_, slots) = plan.chain.claimed_capacity();
    let mut read_back: Vec<u8> = Vec::new();
    for slot in slots.iter().take(segment_count) {
        read_back.extend_from_slice(store.get(*slot).expect("segment slot written"));
    }
    assert_eq!(read_back, data);
}

#[test]
fn vault_round_trip_of_empty_data() {
    quote_commit_read_back(Vec::new());
}

#[test]
fn vault_round_trip_within_one_segment() {
    quote_commit_read_back(vec![7u8; 10]);
}

#[test]
fn vault_round_trip_across_segment_boundaries() {
    let data: Vec<u8> = (0..(SEGMENT_SIZE * 2 + 123)).map(|i| (i % 251) as u8).collect();
    quote_commit_read_back(data);
}

#[test]
fn vault_update_over_existing_scratchpads_is_free() {
    let data: Vec<u8> = vec![1u8; 10];
    let chain = VaultChain::empty(100);
    let plan = vault_quote(chain, &data).expect("quote");
    // the single assigned scratchpad already exists: nothing to pay
    let existence = vec![true];
    let to_pay = addresses_to_pay(&plan, &existence);
    // only the freshly appended ledger entries still need payment
    assert_eq!(to_pay.len(), plan.chain.entries.len() - plan.first_new_entry);

    let receipt = Receipt::new();
    let actions = vault_update(&data, &receipt, &plan, &existence).expect("updates are free");
    let update_count = actions
        .iter()
        .filter(|a| matches!(a, VaultWriteAction::UpdateScratchpad { .. }))
        .count();
    let create_count = actions
        .iter()
        .filter(|a| matches!(a, VaultWriteAction::CreateScratchpad { .. }))
        .count();
    assert_eq!(update_count, 1);
    assert_eq!(create_count, 0);
}

#[test]
fn vault_update_refuses_an_uncovered_scratchpad_creation() {
    let data: Vec<u8> = vec![1u8; 10];
    let chain = VaultChain::empty(100);
    let plan = vault_quote(chain, &data).expect("quote");
    let existence = vec![false];
    let receipt = Receipt::new();
    match vault_update(&data, &receipt, &plan, &existence) {
        Err(VaultCommitError::ReceiptIncomplete { derivation }) => {
            let (_, slots) = plan.chain.claimed_capacity();
            assert_eq!(derivation, slots[0]);
        }
        Ok(_) => panic!("an unpaid creation must be refused"),
    }
}

#[test]
fn segments_split_preserves_the_data() {
    let empty = split_into_segments(&Vec::new());
    assert_eq!(empty.len(), 0);

    let small = split_into_segments(&vec![5u8; 10]);
    assert_eq!(small.len(), 1);
    assert_eq!(small[0].len(), 10);

    let exact = split_into_segments(&vec![5u8; SEGMENT_SIZE]);
    assert_eq!(exact.len(), 1);

    let data: Vec<u8> = (0..(SEGMENT_SIZE + 1)).map(|i| (i % 256) as u8).collect();
    let two = split_into_segments(&data);
    assert_eq!(two.len(), 2);
    assert_eq!(two[0].len(), SEGMENT_SIZE);
    assert_eq!(two[1].len(), 1);
    let mut joined = two[0].clone();
    joined.extend_from_slice(&two[1]);
    assert_eq!(joined, data);
}

#[test]
fn chain_validation_accepts_a_proper_chain() {
    let entries = vec![entry(100, 200, 1000), entry(200, 300, 2000)];
    let chain = chain_from_entries(100, entries).expect("well-formed chain");
    let (next_free, slots) = chain.claimed_capacity();
    assert_eq!(next_free, 300);
    assert_eq!(slots.len(), 2 * SCRATCHPADS_PER_LEDGER_ENTRY);
    assert_eq!(slots[0], 1000);
}

#[test]
fn chain_validation_rejects_a_broken_chain() {
    let entries = vec![entry(100, 200, 1000), entry(999, 300, 2000)];
    assert_eq!(chain_from_entries(100, entries).err(), Some(VaultChainError::BrokenChain));

    let head_mismatch = vec![entry(5, 6, 1000)];
    assert_eq!(chain_from_entries(100, head_mismatch).err(), Some(VaultChainError::BrokenChain));
}

#[test]
fn chain_validation_rejects_wrong_slot_counts_and_duplicates() {
    let short = LedgerEntry {
        own_derivation: 100,
        next_derivation: 200,
        scratchpad_derivations: vec![1],
    };
    assert_eq!(chain_from_entries(100, vec![short]).err(), Some(VaultChainError::WrongSlotCount));

    let duplicated = vec![entry(100, 200, 1000), entry(200, 300, 1000)];
    assert_eq!(
        chain_from_entries(100, duplicated).err(),
        Some(VaultChainError::DuplicateSlot)
    );
}

#[test]
fn quote_grows_the_chain_only_as_far_as_needed() {
    let data: Vec<u8> = vec![9u8; SEGMENT_SIZE * SCRATCHPADS_PER_LEDGER_ENTRY];
    let chain = VaultChain::empty(100);
    let plan = vault_quote(chain, &data).expect("quote");
    assert_eq!(plan.segment_count, SCRATCHPADS_PER_LEDGER_ENTRY);
    assert_eq!(plan.first_new_entry, 0);
    // one ledger entry supplies exactly the needed slots
    assert_eq!(plan.chain.entries.len(), 1);

    // a chain that already has the capacity is not grown
    let grown = vault_quote(plan.chain, &data).expect("second quote");
    assert_eq!(grown.chain.entries.len(), 1);
    assert_eq!(grown.first_new_entry, 1);
}
