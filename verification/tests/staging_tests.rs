use project_dave::quote::StoreQuote;
use project_dave::staging::{PendingUploadData, PendingUploads};
use project_dave::types::{Chunk, Payment};
use project_dave::upload::File;

fn single_file_payload(datamap: u64, amount: u128) -> PendingUploadData {
    let mut store_quote = StoreQuote::new();
    store_quote.insert(
        1,
        vec![Payment { quote_hash: 1, rewards_address: 2, amount }],
    );
    PendingUploadData::SingleFile {
        file: File { name: String::from("notes.txt"), path: String::from("/tmp/notes.txt") },
        datamap,
        chunks: vec![Chunk { addr: 1, size: 10 }],
        store_quote,
        secret_key: 42,
        add_to_vault: false,
    }
}

#[test]
fn take_returns_the_staged_payload_exactly_once() {
    let mut staging = PendingUploads::new();
    let id = String::from("upload-1");
    staging.stage(id.clone(), single_file_payload(7, 5));

    let first = staging.take(&id);
    assert!(first.is_some());
    match first.unwrap() {
        PendingUploadData::SingleFile { datamap, .. } => assert_eq!(datamap, 7),
        _ => panic!("wrong payload kind"),
    }

    // the stage is destructive: a second take finds nothing
    assert!(staging.take(&id).is_none());
}

#[test]
fn take_of_an_unknown_id_returns_none() {
    let mut staging = PendingUploads::new();
    assert!(staging.take(&String::from("never-staged")).is_none());
}

#[test]
fn restaging_an_id_overwrites_silently() {
    let mut staging = PendingUploads::new();
    let id = String::from("upload-2");
    staging.stage(id.clone(), single_file_payload(1, 5));
    staging.stage(id.clone(), single_file_payload(2, 5));

    match staging.take(&id).unwrap() {
        PendingUploadData::SingleFile { datamap, .. } => assert_eq!(datamap, 2),
        _ => panic!("wrong payload kind"),
    }
}

#[test]
fn independent_ids_are_staged_independently() {
    let mut staging = PendingUploads::new();
    staging.stage(String::from("a"), single_file_payload(1, 5));
    staging.stage(String::from("b"), single_file_payload(2, 5));
    assert!(staging.take(&String::from("a")).is_some());
    assert!(staging.take(&String::from("b")).is_some());
    assert!(staging.take(&String::from("a")).is_none());
}

#[test]
fn each_upload_kind_is_staged_under_its_id() {
    let mut staging = PendingUploads::new();
    let file = File { name: String::from("a.txt"), path: String::from("/tmp/a.txt") };
    staging.store_single_file(
        String::from("one"),
        file.clone(),
        1,
        vec![],
        StoreQuote::new(),
        9,
        false,
    );
    staging.store_single_file_public(
        String::from("two"),
        file.clone(),
        2,
        vec![],
        StoreQuote::new(),
        false,
        None,
    );
    staging.store_private_archive(
        String::from("three"),
        vec![file.clone()],
        String::from("arch"),
        3,
        vec![],
        StoreQuote::new(),
        false,
        None,
    );
    staging.store_public_archive(
        String::from("four"),
        vec![file],
        String::from("arch"),
        4,
        vec![5, 6],
        vec![],
        StoreQuote::new(),
        false,
        None,
    );

    assert!(matches!(
        staging.take(&String::from("one")),
        Some(PendingUploadData::SingleFile { datamap: 1, .. })
    ));
    assert!(matches!(
        staging.take(&String::from("two")),
        Some(PendingUploadData::SingleFilePublic { datamap: 2, .. })
    ));
    assert!(matches!(
        staging.take(&String::from("three")),
        Some(PendingUploadData::PrivateArchive { archive_datamap: 3, .. })
    ));
    match staging.take(&String::from("four")) {
        Some(PendingUploadData::PublicArchive { archive_datamap, file_datamaps, .. }) => {
            assert_eq!(archive_datamap, 4);
            assert_eq!(file_datamaps, vec![5, 6]);
        }
        _ => panic!("wrong payload kind"),
    }
}
