use svalbard::generate;
use svalbard::generate::{auth_token, password_from_digest, pepper, salt_to_bytes};
use svalbard::table::{Cell, PasswordTable};
use svalbard::seed::{CharacterClass, Characters, Seed, NUMERICAL, UPPER_CASE};

const U: &[u8] = &UPPER_CASE;
const N: &[u8] = &NUMERICAL;

fn seed(length: u32, salt: u64, characters: Characters) -> Seed {
    Seed { identifier: "GitHub".to_string(), length, salt, characters, username: None }
}

fn cell(position: usize, selector: u8) -> Cell {
    Cell { position, selector }
}

fn count_in(password: &str, alphabet: &[u8]) -> usize {
    password.bytes().filter(|byte| alphabet.contains(byte)).count()
}

#[test]
fn password() {
    let seed = Seed {
        identifier: "".to_string(),
        length: 255,
        salt: 2,
        characters: Characters::all(),
        username: None,
    };
    let derived = generate::password("", b"", &seed).unwrap();
    assert_eq!(derived.len(), 255);
}

#[test]
fn password_is_reproducible() {
    let seed = seed(32, 1, Characters::all());
    let first = generate::password("correct horse", b"0123456789abcdefghij", &seed).unwrap();
    let second = generate::password("correct horse", b"0123456789abcdefghij", &seed).unwrap();
    assert_eq!(first, second);
}

#[test]
fn password_changes_with_salt_key_pepper_and_identifier() {
    let base = generate::password("key", b"pepper", &seed(32, 1, Characters::all())).unwrap();
    assert_ne!(base, generate::password("key", b"pepper", &seed(32, 2, Characters::all())).unwrap());
    assert_ne!(base, generate::password("kez", b"pepper", &seed(32, 1, Characters::all())).unwrap());
    assert_ne!(base, generate::password("key", b"peppes", &seed(32, 1, Characters::all())).unwrap());
    let mut other = seed(32, 1, Characters::all());
    other.identifier = "GitLab".to_string();
    assert_ne!(base, generate::password("key", b"pepper", &other).unwrap());
}

#[test]
fn password_hashes_key_then_identifier() {
    let mut a = seed(16, 0, Characters::all());
    a.identifier = "bc".to_string();
    let mut b = seed(16, 0, Characters::all());
    b.identifier = "c".to_string();
    assert_eq!(generate::password("a", b"", &a).unwrap(), generate::password("ab", b"", &b).unwrap());
}

#[test]
fn password_ignores_username() {
    let plain = seed(20, 3, Characters::all());
    let mut named = seed(20, 3, Characters::all());
    named.username = Some("octocat".to_string());
    assert_eq!(generate::password("key", b"pepper", &plain).unwrap(), generate::password("key", b"pepper", &named).unwrap());
}

#[test]
fn password_has_the_length_of_the_seed() {
    for length in [0u32, 1, 2, 3, 4, 5, 9, 10, 11, 64] {
        let derived = generate::password("key", b"pepper", &seed(length, 0, Characters::all())).unwrap();
        assert_eq!(derived.chars().count(), length as usize);
    }
}

#[test]
fn password_stays_within_the_selected_classes() {
    let characters = Characters::single(CharacterClass::Numerical);
    for salt in 0..4 {
        let derived = generate::password("key", b"pepper", &seed(40, salt, characters)).unwrap();
        assert!(derived.bytes().all(|byte| N.contains(&byte)));
    }
    let characters = characters.with(CharacterClass::UpperCase);
    for salt in 0..4 {
        let derived = generate::password("key", b"pepper", &seed(40, salt, characters)).unwrap();
        assert!(derived.bytes().all(|byte| N.contains(&byte) || U.contains(&byte)));
    }
}

#[test]
fn password_gives_every_selected_class_its_share() {
    for salt in 0..6 {
        for length in [10u32, 11, 16] {
            let derived = generate::password("key", b"pepper", &seed(length, salt, Characters::all())).unwrap();
            for set in Characters::all().get() {
                assert!(count_in(&derived, set) >= 2);
            }
        }
        let derived = generate::password("key", b"pepper", &seed(5, salt, Characters::all())).unwrap();
        for set in Characters::all().get() {
            assert_eq!(count_in(&derived, set), 1);
        }
    }
}

#[test]
fn salt_is_written_most_significant_byte_first() {
    assert_eq!(salt_to_bytes(0x0102_0304_0506_0708), [1, 2, 3, 4, 5, 6, 7, 8]);
    assert_eq!(salt_to_bytes(0), [0; 8]);
    assert_eq!(salt_to_bytes(2), [0, 0, 0, 0, 0, 0, 0, 2]);
    assert_eq!(salt_to_bytes(u64::MAX), [255; 8]);
    assert_eq!(salt_to_bytes(0xfedc_ba98_7654_3210), 0xfedc_ba98_7654_3210u64.to_be_bytes());
}

#[test]
fn pepper_has_twenty_bytes() {
    let first = pepper();
    let second = pepper();
    assert_eq!(first.len(), 20);
    assert_eq!(second.len(), 20);
    assert_ne!(first, second);
}

#[test]
fn auth_token_is_the_default_argon2_hash() {
    let token = auth_token("key", b"0123456789abcdefghij").unwrap();
    assert_eq!(token.len(), 32);
    assert_eq!(token, argon2::hash_raw(b"key", b"0123456789abcdefghij", &argon2::Config::default()).unwrap());
    assert_ne!(token, auth_token("kez", b"0123456789abcdefghij").unwrap());
}

#[test]
fn auth_token_needs_eight_bytes_of_pepper() {
    assert_eq!(auth_token("key", b"1234567"), Err(svalbard::result::VaultError::Hashing));
    assert!(auth_token("key", b"12345678").is_ok());
}

#[test]
fn password_is_made_from_the_argon2d_digest() {
    let seed = seed(12, 0x0102_0304_0506_0708, Characters::all());
    let mut config = argon2::Config::default();
    config.hash_length = 24;
    config.secret = b"pepper";
    config.variant = argon2::Variant::Argon2d;
    let digest = argon2::hash_raw(b"keyGitHub", &[1, 2, 3, 4, 5, 6, 7, 8], &config).unwrap();
    assert_eq!(generate::password("key", b"pepper", &seed).unwrap(), password_from_digest(&seed, &digest));
}

#[test]
fn short_passwords_are_made_from_four_bytes() {
    let seed = seed(1, 5, Characters::all());
    let mut config = argon2::Config::default();
    config.hash_length = 4;
    config.secret = b"pepper";
    config.variant = argon2::Variant::Argon2d;
    let digest = argon2::hash_raw(b"keyGitHub", &5u64.to_be_bytes(), &config).unwrap();
    assert_eq!(generate::password("key", b"pepper", &seed).unwrap(), password_from_digest(&seed, &digest));
}

#[test]
fn table_sorts_cells_by_the_set_that_the_first_byte_selects() {
    // 24 upper-case letters, then 9 digits: 33 bytes in all.
    let digest = [0, 0, 24, 1, 32, 2, 33, 3, 23, 4];
    let table = PasswordTable::new(5, vec![U, N], &digest);
    assert_eq!(
        table.cells(),
        &vec![vec![cell(0, 0), cell(3, 3), cell(4, 4)], vec![cell(1, 1), cell(2, 2)]]
    );
    assert_eq!(table.balance().build(), "A23DE");
}

#[test]
fn table_leaves_an_odd_last_byte_aside() {
    let table = PasswordTable::new(2, vec![U, N], &[0, 0, 24, 1, 7]);
    assert_eq!(table.cells(), &vec![vec![cell(0, 0)], vec![cell(1, 1)]]);
    let empty = PasswordTable::new(2, vec![U, N], &[9]);
    assert_eq!(empty.cells(), &vec![vec![], vec![]]);
    assert_eq!(empty.balance().build(), "");
}

#[test]
fn selector_wraps_around_the_set() {
    let table = PasswordTable::new(2, vec![N], &[0, 9, 0, 255]);
    // 9 % 9 = 0 and 255 % 9 = 3
    assert_eq!(table.balance().build(), "14");
}

#[test]
fn balance_moves_the_last_cells_of_the_longest_row() {
    let digest = [0, 0, 0, 1, 0, 2, 0, 3];
    let table = PasswordTable::new(4, vec![U, N], &digest).balance();
    assert_eq!(
        table.cells(),
        &vec![vec![cell(0, 0), cell(1, 1)], vec![cell(3, 3), cell(2, 2)]]
    );
    assert_eq!(table.build(), "AB34");
}

#[test]
fn balance_takes_from_the_last_of_the_longest_rows() {
    // Rows of 2, 2 and 0 cells, and a password of three characters: every row
    // is to have one cell, and the second row is the last of the longest.
    let digest = [0, 0, 0, 1, 24, 2, 24, 3];
    let sets: Vec<&'static [u8]> = vec![U, N, &svalbard::seed::RARE];
    let table = PasswordTable::new(3, sets, &digest).balance();
    assert_eq!(
        table.cells(),
        &vec![vec![cell(0, 0), cell(1, 1)], vec![cell(2, 2)], vec![cell(3, 3)]]
    );
    assert_eq!(table.build(), "AB3");
}

#[test]
fn balance_leaves_a_deficit_where_no_row_has_a_cell_to_spare() {
    let table = PasswordTable::new(10, vec![U, N], &[0, 0, 0, 1]).balance();
    assert_eq!(table.cells(), &vec![vec![cell(0, 0), cell(1, 1)], vec![]]);
    assert_eq!(table.build(), "AB");
}

#[test]
fn balance_asks_for_less_of_short_passwords() {
    // Five sets and a password of seven characters: one cell for every row.
    let digest = [0, 0, 0, 1, 0, 2, 0, 3, 0, 4, 0, 5, 0, 6];
    let table = PasswordTable::new(7, Characters::all().get(), &digest).balance();
    let lengths: Vec<usize> = table.cells().iter().map(|row| row.len()).collect();
    assert_eq!(lengths, [3, 1, 1, 1, 1]);
    // The cells 6, 5, 4 and 3 have gone, in this order, to the rows of the
    // lower-case letters, the digits, the special and the rare characters.
    assert_eq!(table.build(), "ABC/)6g");
}

#[test]
fn balance_keeps_every_cell() {
    for seed_byte in 0u8..40 {
        let digest: Vec<u8> = (0u8..24).map(|i| i.wrapping_mul(37).wrapping_add(seed_byte.wrapping_mul(11))).collect();
        let before = PasswordTable::new(12, Characters::all().get(), &digest);
        let mut cells_before: Vec<Cell> = before.cells().iter().flatten().copied().collect();
        let after = before.balance();
        let mut cells_after: Vec<Cell> = after.cells().iter().flatten().copied().collect();
        cells_before.sort_by_key(|cell| cell.position);
        cells_after.sort_by_key(|cell| cell.position);
        assert_eq!(cells_before, cells_after);
        assert_eq!(cells_after.len(), 12);
        assert!(after.cells().iter().all(|row| row.len() >= 2));
    }
}

#[test]
fn build_keeps_the_first_cells_in_order_of_position() {
    let digest = [24, 0, 0, 1, 24, 2, 0, 3];
    assert_eq!(PasswordTable::new(4, vec![U, N], &digest).balance().build(), "1B3D");
    assert_eq!(PasswordTable::new(3, vec![U, N], &digest).build(), "1B3");
    assert_eq!(PasswordTable::new(0, vec![U, N], &digest).build(), "");
}

#[test]
fn password_of_more_than_two_thousand_million_characters_is_refused() {
    let seed = seed(0x8000_0000, 0, Characters::all());
    assert_eq!(
        generate::password("key", b"pepper", &seed),
        Err(svalbard::result::VaultError::Hashing)
    );
    let seed = self::seed(u32::MAX, 0, Characters::all());
    assert_eq!(
        generate::password("key", b"pepper", &seed),
        Err(svalbard::result::VaultError::Hashing)
    );
}

#[test]
fn balance_with_many_sets_and_few_cells() {
    let four = Characters::all().get()[..4].to_vec();
    let five = Characters::all().get();
    for sets in [four, five] {
        for target_len in 0usize..14 {
            for round in 0u8..25 {
                let bytes = if target_len < 2 { 4 } else { 2 * target_len };
                let digest: Vec<u8> = (0..bytes)
                    .map(|i| (i as u8).wrapping_mul(97).wrapping_add(round.wrapping_mul(53)) ^ (round >> 1))
                    .collect();
                let table = PasswordTable::new(target_len, sets.clone(), &digest).balance();
                let least = std::cmp::min(2, target_len / sets.len());
                assert!(table.cells().iter().all(|row| row.len() >= least));
                let mut positions: Vec<usize> =
                    table.cells().iter().flatten().map(|cell| cell.position).collect();
                positions.sort();
                assert_eq!(positions, (0..bytes / 2).collect::<Vec<usize>>());
                for cell in table.cells().iter().flatten() {
                    assert_eq!(cell.selector, digest[2 * cell.position + 1]);
                }
                let password = table.build();
                assert_eq!(password.len(), target_len);
                if target_len >= 2 {
                    for set in &sets {
                        assert!(count_in(&password, set) >= least);
                    }
                }
            }
        }
    }
}

#[test]
fn balance_of_all_cells_in_the_last_row() {
    // 89 bytes in all five sets: 88 selects the last byte of the last set.
    let digest = [88, 0, 88, 1, 88, 2, 88, 3, 88, 4, 88, 5, 88, 6, 88, 7, 88, 8, 88, 9];
    let table = PasswordTable::new(10, Characters::all().get(), &digest).balance();
    let lengths: Vec<usize> = table.cells().iter().map(|row| row.len()).collect();
    assert_eq!(lengths, [2, 2, 2, 2, 2]);
    assert_eq!(
        table.cells()[0],
        vec![cell(9, 9), cell(8, 8)]
    );
    assert_eq!(table.cells()[1], vec![cell(7, 7), cell(6, 6)]);
    assert_eq!(table.cells()[2], vec![cell(5, 5), cell(4, 4)]);
    assert_eq!(table.cells()[3], vec![cell(3, 3), cell(2, 2)]);
    assert_eq!(table.cells()[4], vec![cell(0, 0), cell(1, 1)]);
    // Places 0 and 1 are rare, 2 and 3 special, 4 and 5 digits, 6 and 7 lower
    // case, 8 and 9 upper case, and each selector is the number of its place.
    assert_eq!(table.build(), "\"$&(56ghJK");
}
