use svalbard::path::{file_name_of, join};
use svalbard::result::VaultError;
use svalbard::seed::{Characters, Seed};
use svalbard::vault::Vault;

const PEPPER: &[u8] = b"0123456789abcdefghij";

fn seed(identifier: &str) -> Seed {
    Seed {
        identifier: identifier.to_string(),
        length: 16,
        salt: 0,
        characters: Characters::all(),
        username: None,
    }
}

fn identifiers(vault: &Vault) -> Vec<String> {
    vault.seeds().iter().map(|seed| seed.identifier.clone()).collect()
}

fn vault() -> Vault {
    Vault::with_pepper("vaults", "test".to_string(), "key", PEPPER.to_vec(), false).unwrap()
}

#[test]
fn path_of() {
    let data = [
        (("vaults", "test"), "vaults/test.vault"),
        (("vaults", "Hello world"), "vaults/hello_world.vault"),
        (("vaults", "åäö"), "vaults/aao.vault"),
        (("vaults", "åäö"), "vaults/aao.vault"),
        (
            ("vaults", "😀 My secret vault 😍"),
            "vaults/grinning_my_secret_vault_heart_eyes.vault",
        ),
        (("vaults", "中文拉丁化"), "vaults/zhong_wen_la_ding_hua.vault"),
    ];

    for ((folder, identifier), expected) in data {
        assert_eq!(Vault::path_of(folder, identifier), expected);
    }
}

#[test]
fn file_names_keep_dots_dashes_and_underscores() {
    assert_eq!(Vault::path_of("v", "a.b-c_d"), "v/a.b-c_d.vault");
    assert_eq!(Vault::path_of("v", "A/B\\C:D*E"), "v/abcde.vault");
    assert_eq!(Vault::path_of("v", ""), "v/.vault");
    assert_eq!(Vault::path_of("v", "R2-D2 & C-3PO"), "v/r2-d2__c-3po.vault");
}

#[test]
fn file_names_have_255_bytes_at_most() {
    let long = "x".repeat(1000);
    let path = Vault::path_of("", &long);
    assert_eq!(path.len(), 255);
    assert_eq!(path, format!("{}.vault", "x".repeat(249)));
    let exact = "y".repeat(249);
    assert_eq!(Vault::path_of("", &exact), format!("{}.vault", exact));
}

#[test]
fn file_name_is_made_from_the_items() {
    let items = vec![
        Some("Zhong ".chars().collect()),
        None,
        Some("Wen".chars().collect()),
        Some("É!".chars().collect()),
    ];
    assert_eq!(file_name_of(&items), "zhong_wen.vault");
    assert_eq!(file_name_of(&Vec::new()), ".vault");
}

#[test]
fn join_puts_one_separator_between_folder_and_name() {
    assert_eq!(join("vaults", "a.vault"), "vaults/a.vault");
    assert_eq!(join("vaults/", "a.vault"), "vaults/a.vault");
    assert_eq!(join("", "a.vault"), "a.vault");
    assert_eq!(join("/", "a.vault"), "/a.vault");
    assert_eq!(join("/home/user/vaults", "a.vault"), "/home/user/vaults/a.vault");
}

#[test]
fn new_vault_is_empty_and_knows_its_key() {
    let vault = Vault::new("vaults", "Hello world".to_string(), "key", false).unwrap();
    assert_eq!(vault.identifier(), "Hello world");
    assert_eq!(vault.path(), "vaults/hello_world.vault");
    assert_eq!(vault.pepper().len(), 20);
    assert!(vault.seeds().is_empty());
    assert!(vault.verify_key("key"));
    assert!(!vault.verify_key("kez"));
    assert!(!vault.verify_key(""));
}

#[test]
fn new_vaults_have_peppers_of_their_own() {
    let first = Vault::new("vaults", "test".to_string(), "key", false).unwrap();
    let second = Vault::new("vaults", "test".to_string(), "key", false).unwrap();
    assert_ne!(first.pepper(), second.pepper());
    assert_ne!(first.auth_token(), second.auth_token());
}

#[test]
fn new_vault_refuses_a_name_that_is_taken() {
    let result = Vault::new("vaults", "test".to_string(), "key", true);
    assert_eq!(result.err(), Some(VaultError::VaultNameConflict("test".to_string())));
}

#[test]
fn vault_with_a_short_pepper_cannot_be_made() {
    let result = Vault::with_pepper("vaults", "test".to_string(), "key", vec![1, 2, 3], false);
    assert_eq!(result.err(), Some(VaultError::Hashing));
    let result = Vault::with_pepper("vaults", "test".to_string(), "key", vec![1, 2, 3], true);
    assert_eq!(result.err(), Some(VaultError::Hashing));
}

#[test]
fn token_is_the_hash_of_the_key_with_the_pepper() {
    let vault = vault();
    assert_eq!(vault.pepper(), PEPPER);
    assert_eq!(vault.auth_token(), svalbard::generate::auth_token("key", PEPPER).unwrap());
}

#[test]
fn crud_scenario() {
    let mut vault = vault();
    vault.push(seed("A"));
    vault.push(seed("B"));
    assert_eq!(vault.swap(0, 1), Ok(()));
    assert_eq!(identifiers(&vault), ["B", "A"]);
    assert_eq!(vault.remove(0), Ok(()));
    assert_eq!(identifiers(&vault), ["A"]);
    assert_eq!(vault.remove(5), Err(VaultError::SeedIndex(5)));
    assert_eq!(identifiers(&vault), ["A"]);
}

#[test]
fn push_accepts_an_identifier_twice() {
    let mut vault = vault();
    vault.push(seed("A"));
    vault.push(seed("A"));
    assert_eq!(identifiers(&vault), ["A", "A"]);
}

#[test]
fn get_returns_the_seed_or_the_index() {
    let mut vault = vault();
    vault.push(seed("A"));
    vault.push(seed("B"));
    assert_eq!(vault.get(1).unwrap().identifier, "B");
    assert_eq!(vault.get(2).err(), Some(VaultError::SeedIndex(2)));
}

#[test]
fn swap_exchanges_two_seeds_and_moves_no_other() {
    let mut vault = vault();
    for identifier in ["A", "B", "C", "D", "E"] {
        vault.push(seed(identifier));
    }
    assert_eq!(vault.swap(1, 3), Ok(()));
    assert_eq!(identifiers(&vault), ["A", "D", "C", "B", "E"]);
    assert_eq!(vault.swap(4, 0), Ok(()));
    assert_eq!(identifiers(&vault), ["E", "D", "C", "B", "A"]);
    assert_eq!(vault.swap(2, 2), Ok(()));
    assert_eq!(identifiers(&vault), ["E", "D", "C", "B", "A"]);
    assert_eq!(vault.swap(3, 4), Ok(()));
    assert_eq!(identifiers(&vault), ["E", "D", "C", "A", "B"]);
}

#[test]
fn swap_names_the_greater_index_that_is_out_of_bounds() {
    let mut vault = vault();
    vault.push(seed("A"));
    vault.push(seed("B"));
    assert_eq!(vault.swap(0, 2), Err(VaultError::SeedIndex(2)));
    assert_eq!(vault.swap(7, 1), Err(VaultError::SeedIndex(7)));
    assert_eq!(vault.swap(9, 8), Err(VaultError::SeedIndex(9)));
    assert_eq!(identifiers(&vault), ["A", "B"]);
}

#[test]
fn vault_password_is_the_derived_password() {
    let vault = vault();
    let seed = seed("GitHub");
    assert_eq!(
        vault.password(&seed, "key"),
        svalbard::generate::password("key", PEPPER, &seed)
    );
    assert_eq!(vault.password(&seed, "key").unwrap().len(), 16);
    assert_ne!(vault.password(&seed, "key"), vault.password(&seed, "other"));
}

#[test]
fn save_and_load_keep_the_vault() {
    let mut vault = vault();
    vault.push(seed("A"));
    vault.push(seed("B"));
    let before = vault.password(&seed("A"), "key");
    let loaded = Vault::load("elsewhere", "Other name", vault.save());
    assert_eq!(loaded.path(), "elsewhere/other_name.vault");
    assert_eq!(loaded.identifier(), "test");
    assert_eq!(loaded.pepper(), vault.pepper());
    assert_eq!(loaded.auth_token(), vault.auth_token());
    assert_eq!(identifiers(&loaded), ["A", "B"]);
    assert!(loaded.verify_key("key"));
    assert_eq!(loaded.password(&seed("A"), "key"), before);
}
