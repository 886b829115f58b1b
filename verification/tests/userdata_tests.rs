use project_dave::app_data::AppData;
use project_dave::local::{
    get_all_local_files, local_individual_files, local_update_complete, local_update_for_fetch,
    local_update_individual_files, local_update_loading, LocalArchiveFetch, LocalIndividualFile,
    LocalUpdateType,
};
use project_dave::structure::{ArchiveFetch, VaultStructure, VaultUpdateType, vault_update_complete, vault_update_for_fetch, vault_update_loading};
use project_dave::upload::VaultError;
use project_dave::userdata::{
    add_local_archive_to_vault, add_local_file_to_vault, kv_contains_key, remove_from_vault,
    UserData,
};

fn sample_user_data() -> UserData {
    let mut data = UserData::new();
    data = add_local_archive_to_vault(data, 10, String::from("pub-archive"), false);
    data = add_local_archive_to_vault(data, 20, String::from("priv-archive"), true);
    data = add_local_file_to_vault(data, 30, String::from("pub-file.txt"), false);
    data = add_local_file_to_vault(data, 40, String::from("priv-file.txt"), true);
    data
}

#[test]
fn remove_archive_searches_private_archives_first() {
    let data = sample_user_data();
    let updated = remove_from_vault(data, &String::new(), Some(20)).expect("archive is listed");
    assert!(!kv_contains_key(&updated.private_file_archives, 20));
    assert!(kv_contains_key(&updated.file_archives, 10));
}

#[test]
fn remove_archive_falls_back_to_public_archives() {
    let data = sample_user_data();
    let updated = remove_from_vault(data, &String::new(), Some(10)).expect("archive is listed");
    assert!(!kv_contains_key(&updated.file_archives, 10));
    assert!(kv_contains_key(&updated.private_file_archives, 20));
}

#[test]
fn remove_file_by_name_searches_private_files_first() {
    let data = sample_user_data();
    let updated =
        remove_from_vault(data, &String::from("priv-file.txt"), None).expect("file is listed");
    assert!(!kv_contains_key(&updated.private_files, 40));
    assert!(kv_contains_key(&updated.public_files, 30));

    let data = sample_user_data();
    let updated =
        remove_from_vault(data, &String::from("pub-file.txt"), None).expect("file is listed");
    assert!(!kv_contains_key(&updated.public_files, 30));
}

#[test]
fn removing_something_absent_is_an_error() {
    let data = sample_user_data();
    assert!(matches!(
        remove_from_vault(data, &String::new(), Some(999)),
        Err(VaultError::FileNotFound)
    ));
    let data = sample_user_data();
    assert!(matches!(
        remove_from_vault(data, &String::from("no-such-file"), None),
        Err(VaultError::FileNotFound)
    ));
}

#[test]
fn adding_an_archive_twice_replaces_its_name() {
    let mut data = UserData::new();
    data = add_local_archive_to_vault(data, 5, String::from("first"), false);
    data = add_local_archive_to_vault(data, 5, String::from("second"), false);
    assert_eq!(data.file_archives.len(), 1);
    assert_eq!(data.file_archives[0].1, "second");
}

#[test]
fn local_listings_are_assembled_in_order() {
    let data = get_all_local_files(
        vec![(String::from("a1"), String::from("arch-pub"))],
        vec![(String::from("a2"), String::from("arch-priv"))],
        vec![(String::from("f1"), String::from("one.txt"))],
        vec![(String::from("f2"), String::from("two.txt"))],
    );
    assert_eq!(data.public_file_archives.len(), 1);
    assert_eq!(data.public_file_archives[0].address, "a1");
    assert_eq!(data.public_file_archives[0].name, "arch-pub");
    assert_eq!(data.private_file_archives[0].name, "arch-priv");
    assert_eq!(data.public_files[0].name, "one.txt");
    assert_eq!(data.private_files[0].name, "two.txt");

    let streamed = local_individual_files(&data);
    assert_eq!(streamed.len(), 2);
    assert!(!streamed[0].is_private);
    assert_eq!(streamed[0].name, "one.txt");
    assert!(streamed[1].is_private);
    assert_eq!(streamed[1].name, "two.txt");
}

#[test]
fn vault_structure_folds_fetches_into_loaded_and_failed() {
    let mut structure = VaultStructure::new();
    structure.apply_archive_fetch(ArchiveFetch {
        name: String::from("good"),
        address: String::from("addr-1"),
        is_private: true,
        files: Some(Vec::new()),
    });
    structure.apply_archive_fetch(ArchiveFetch {
        name: String::from("bad"),
        address: String::from("addr-2"),
        is_private: false,
        files: None,
    });
    assert_eq!(structure.archives.len(), 1);
    assert_eq!(structure.archives[0].name, "good");
    assert_eq!(structure.failed_archives.len(), 1);
    assert_eq!(structure.failed_archives[0].name, "bad");
}

#[test]
fn streamed_vault_updates_carry_the_right_phase() {
    let loading = vault_update_loading(
        String::from("arch"),
        String::from("addr"),
        true,
        String::from("code-1"),
    );
    assert_eq!(loading.update_type, VaultUpdateType::ArchiveLoading);
    assert!(!loading.is_complete);

    let loaded = vault_update_for_fetch(
        ArchiveFetch {
            name: String::from("arch"),
            address: String::from("addr"),
            is_private: true,
            files: Some(Vec::new()),
        },
        String::from("code-1"),
    );
    assert_eq!(loaded.update_type, VaultUpdateType::ArchiveLoaded);
    assert!(loaded.archive.is_some());

    let failed = vault_update_for_fetch(
        ArchiveFetch {
            name: String::from("arch"),
            address: String::from("addr"),
            is_private: true,
            files: None,
        },
        String::from("code-1"),
    );
    assert_eq!(failed.update_type, VaultUpdateType::ArchiveFailed);
    assert!(failed.failed_archive.is_some());

    let complete = vault_update_complete(String::from("code-1"));
    assert_eq!(complete.update_type, VaultUpdateType::Complete);
    assert!(complete.is_complete);
}

#[test]
fn initial_app_data_has_the_paymaster_off() {
    let data = AppData::initial();
    assert!(data.download_path.is_none());
    assert!(data.peers.is_none());
    assert_eq!(data.use_paymaster, Some(false));
}

#[test]
fn streamed_local_updates_carry_the_right_phase() {
    let files = vec![LocalIndividualFile {
        name: String::from("one.txt"),
        address: String::from("f1"),
        is_private: false,
    }];
    let individual = local_update_individual_files(files, String::from("code-2"));
    assert_eq!(individual.update_type, LocalUpdateType::IndividualFiles);
    assert_eq!(individual.files.len(), 1);

    let loading = local_update_loading(
        String::from("arch"),
        String::from("addr"),
        false,
        String::from("code-2"),
    );
    assert_eq!(loading.update_type, LocalUpdateType::ArchiveLoading);

    let loaded = local_update_for_fetch(
        LocalArchiveFetch {
            name: String::from("arch"),
            address: String::from("addr"),
            is_private: false,
            files: Some(Vec::new()),
        },
        String::from("code-2"),
    );
    assert_eq!(loaded.update_type, LocalUpdateType::ArchiveLoaded);

    let failed = local_update_for_fetch(
        LocalArchiveFetch {
            name: String::from("arch"),
            address: String::from("addr"),
            is_private: false,
            files: None,
        },
        String::from("code-2"),
    );
    assert_eq!(failed.update_type, LocalUpdateType::ArchiveFailed);

    let complete = local_update_complete(String::from("code-2"));
    assert_eq!(complete.update_type, LocalUpdateType::Complete);
    assert!(complete.is_complete);
}
