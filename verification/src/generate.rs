//! The derivation of a password from key, pepper and seed, and the pepper and
//! the token of a vault.

use vstd::prelude::*;

use crate::result::VaultError;
use crate::seed::{in_alphabet, lemma_selected, CharacterClass, Characters, Seed};
use crate::table::{
    as_chars, assembled, balanced_rows, chunk_count, counted, initial_rows, lemma_assembled,
    lemma_balanced_table, lemma_cell_found, lemma_row_positions, lemma_total_size_bound,
    min_frequency, picked_from_row, row_holds, total_cells, usable_sets, Cell,
    PasswordTable,
};
use crate::trusted::{argon2_accepts, argon2_raw, default_config, fill_random, hash_raw};
use vstd::slice::slice_to_vec;
use vstd::string::StringExecFns;
use vstd::utf8::encode_utf8;

verus! {

/// The variants of Argon2.
#[derive(Clone, Copy, PartialEq, Eq, Structural, Debug)]
pub enum Variant {
    /// Memory is read in an order that depends on the data.
    Argon2d,
    /// Memory is read in an order that does not depend on the data.
    Argon2i,
    /// The first half pass as Argon2i, the rest as Argon2d.
    Argon2id,
}

/// What this library sets of the configuration of Argon2.
#[derive(Debug)]
pub struct HashConfig {
    /// The number of bytes of the digest.
    pub hash_length: u32,
    /// The secret that is hashed with the data.
    pub secret: Vec<u8>,
    /// The variant of Argon2.
    pub variant: Variant,
}

/// The number of bytes of the digest that a password of this length is made
/// from: two for each character, and four at least.
pub open spec fn digest_length(length: u32) -> int {
    if length < 2 {
        4
    } else {
        2 * length
    }
}

/// The eight bytes of the salt, the most significant first.
pub open spec fn salt_bytes(salt: u64) -> Seq<u8> {
    seq![
        (salt / 0x0100_0000_0000_0000) as u8,
        (salt / 0x0001_0000_0000_0000 % 256) as u8,
        (salt / 0x0000_0100_0000_0000 % 256) as u8,
        (salt / 0x0000_0001_0000_0000 % 256) as u8,
        (salt / 0x0000_0000_0100_0000 % 256) as u8,
        (salt / 0x0000_0000_0001_0000 % 256) as u8,
        (salt / 0x0000_0000_0000_0100 % 256) as u8,
        (salt % 256) as u8,
    ]
}

/// What is hashed for a password: the key, then the identifier of the seed,
/// in UTF-8.
pub open spec fn hash_input(key: Seq<char>, identifier: Seq<char>) -> Seq<u8> {
    encode_utf8(key + identifier)
}

/// Whether a digest can be made for this password: the digest is no longer
/// than Argon2 allows, and Argon2 accepts the key with the identifier, and
/// the pepper.
pub open spec fn derivable(key: Seq<char>, pepper: Seq<u8>, seed: Seed) -> bool {
    &&& digest_length(seed.length) <= u32::MAX
    &&& argon2_accepts(
        hash_input(key, seed.identifier@).len(),
        8,
        pepper.len(),
        digest_length(seed.length) as u32,
    )
}

/// The digest that a password is made from: Argon2d of the key followed by
/// the identifier, salted with the salt of the seed, with the pepper as secret.
pub open spec fn digest_of(key: Seq<char>, pepper: Seq<u8>, seed: Seed) -> Seq<u8> {
    argon2_raw(
        hash_input(key, seed.identifier@),
        salt_bytes(seed.salt),
        pepper,
        Variant::Argon2d,
        digest_length(seed.length) as u32,
    )
}

/// The password of this length that is made from the digest over these sets:
/// a table is built from the digest, balanced, and assembled.
pub open spec fn password_from(target_len: nat, sets: Seq<Seq<u8>>, digest: Seq<u8>) -> Seq<char> {
    as_chars(assembled(sets, balanced_rows(initial_rows(sets, digest), target_len), target_len))
}

/// The password that key, pepper and seed give.
pub open spec fn derived_password(key: Seq<char>, pepper: Seq<u8>, seed: Seed) -> Seq<char> {
    password_from(seed.length as nat, seed.characters.sets(), digest_of(key, pepper, seed))
}

/// Whether the key can be hashed into a token with this pepper as salt.
pub open spec fn tokenizable(key: Seq<char>, pepper: Seq<u8>) -> bool {
    argon2_accepts(encode_utf8(key).len(), pepper.len(), 0, 32)
}

/// The token that stands for the key in a vault with this pepper: Argon2i of
/// the key, salted with the pepper, 32 bytes long.
pub open spec fn token_of(key: Seq<char>, pepper: Seq<u8>) -> Seq<u8> {
    argon2_raw(encode_utf8(key), pepper, Seq::empty(), Variant::Argon2i, 32)
}

/// The number of places of the password whose character is one of the bytes
/// of the alphabet.
pub open spec fn appearances(password: Seq<char>, alphabet: Seq<u8>) -> nat {
    Set::new(|i: int| 0 <= i < password.len() && in_alphabet(password[i], alphabet)).len()
}

/// Whether the character is one of the bytes of one of the sets.
pub open spec fn in_sets(c: char, sets: Seq<Seq<u8>>) -> bool {
    exists|s: int| 0 <= s < sets.len() && in_alphabet(c, #[trigger] sets[s])
}

/// A table can be built on the sets of any selection that is not empty.
pub proof fn lemma_selection_usable(characters: Characters)
    requires
        characters.selected().len() >= 1,
    ensures
        usable_sets(characters.sets()),
        characters.sets().len() == characters.selected().len(),
        characters.sets().len() <= 5,
{
    let sets = characters.sets();
    assert forall|c: int| 0 <= c < sets.len() implies 1 <= (#[trigger] sets[c]).len() <= 25 by {
        let class = characters.selected()[c];
        assert(sets[c] == class.alphabet());
    }
    lemma_total_size_bound(sets, 25);
    assert(sets.len() * 25 <= 125) by (nonlinear_arith)
        requires
            sets.len() <= 5,
    ;
}

/// Every set is met in what is assembled as often as its row has cells, where
/// no cell is left out.
proof fn lemma_assembled_appearances(sets: Seq<Seq<u8>>, rows: Seq<Seq<Cell>>, target_len: nat, r: int)
    requires
        rows.len() == sets.len(),
        forall|c: int| 0 <= c < sets.len() ==> (#[trigger] sets[c]).len() >= 1,
        counted(rows),
        total_cells(rows) == target_len,
        0 <= r < rows.len(),
    ensures
        appearances(as_chars(assembled(sets, rows, target_len)), sets[r]) >= rows[r].len(),
{
    let out = as_chars(assembled(sets, rows, target_len));
    let met = Set::new(|i: int| 0 <= i < out.len() && in_alphabet(out[i], sets[r]));
    let positions = Set::new(|p: int| row_holds(rows[r], p));
    lemma_row_positions(rows, r, rows[r].len() as int);
    assert(rows[r].take(rows[r].len() as int) =~= rows[r]);
    lemma_assembled(sets, rows, target_len);
    vstd::set_lib::lemma_int_range(0, out.len() as int);
    assert(met.subset_of(vstd::set_lib::set_int_range(0, out.len() as int)));
    vstd::set_lib::lemma_len_subset(met, vstd::set_lib::set_int_range(0, out.len() as int));
    assert forall|p: int| positions.contains(p) implies met.contains(p) by {
        let j = choose|j: int| 0 <= j < rows[r].len() && #[trigger] rows[r][j].position == p;
        lemma_cell_found(rows, r, j);
        assert(picked_from_row(sets, rows, target_len, p));
    }
    vstd::set_lib::lemma_len_subset(positions, met);
}

/// The length of the password. Where the digest has a chunk for each
/// character, the password has the length asked for.
pub proof fn lemma_password_length(target_len: nat, sets: Seq<Seq<u8>>, digest: Seq<u8>)
    requires
        usable_sets(sets),
        digest.len() <= usize::MAX,
        chunk_count(digest) >= target_len,
    ensures
        password_from(target_len, sets, digest).len() == target_len,
{
    lemma_balanced_table(target_len, sets, digest);
    lemma_assembled(sets, balanced_rows(initial_rows(sets, digest), target_len), target_len);
}

/// The alphabet of the password. Every character of the password is one of
/// the bytes of one of the sets.
pub proof fn lemma_password_alphabet(target_len: nat, sets: Seq<Seq<u8>>, digest: Seq<u8>)
    requires
        usable_sets(sets),
        digest.len() <= usize::MAX,
    ensures
        forall|i: int|
            0 <= i < password_from(target_len, sets, digest).len() ==> in_sets(
                #[trigger] password_from(target_len, sets, digest)[i],
                sets,
            ),
{
    let rows = balanced_rows(initial_rows(sets, digest), target_len);
    lemma_balanced_table(target_len, sets, digest);
    lemma_assembled(sets, rows, target_len);
    assert forall|i: int| 0 <= i < password_from(target_len, sets, digest).len() implies in_sets(
        #[trigger] password_from(target_len, sets, digest)[i],
        sets,
    ) by {
        assert(picked_from_row(sets, rows, target_len, i));
    }
}

/// The least share of every set. Where the digest has one chunk for each
/// character of the password, and two at least, every set is met in the
/// password its least number of times: twice, or less often where the password
/// is too short to give two characters to every set.
pub proof fn lemma_password_representation(
    target_len: nat,
    sets: Seq<Seq<u8>>,
    digest: Seq<u8>,
    set: int,
)
    requires
        usable_sets(sets),
        digest.len() <= usize::MAX,
        chunk_count(digest) == if target_len < 2 {
            2
        } else {
            target_len
        },
        0 <= set < sets.len(),
    ensures
        appearances(password_from(target_len, sets, digest), sets[set]) >= min_frequency(
            target_len,
            sets.len(),
        ),
{
    let rows = balanced_rows(initial_rows(sets, digest), target_len);
    let out = password_from(target_len, sets, digest);
    lemma_balanced_table(target_len, sets, digest);
    if target_len >= 2 {
        lemma_assembled_appearances(sets, rows, target_len, set);
    } else if min_frequency(target_len, sets.len()) > 0 {
        assert(target_len == 1 && sets.len() == 1) by (nonlinear_arith)
            requires
                target_len < 2,
                sets.len() >= 1,
                target_len / sets.len() > 0,
        ;
        lemma_assembled(sets, rows, target_len);
        let met = Set::new(|i: int| 0 <= i < out.len() && in_alphabet(out[i], sets[set]));
        assert(picked_from_row(sets, rows, target_len, 0));
        assert(met.contains(0));
        vstd::set_lib::lemma_int_range(0, out.len() as int);
        assert(met.subset_of(vstd::set_lib::set_int_range(0, out.len() as int)));
        vstd::set_lib::lemma_len_subset(met, vstd::set_lib::set_int_range(0, out.len() as int));
        assert(set![0int].subset_of(met));
        vstd::set_lib::lemma_len_subset(set![0int], met);
    }
}

/// What holds of every password that is made from a digest of the length
/// that the seed asks for, whatever the digest holds.
///
/// * The password has the length that the seed gives.
/// * Every character of the password belongs to one of the selected classes.
/// * Every selected class is met in the password its least number of times:
///   twice, or less often where the password is too short to give two
///   characters to every selected class.
pub proof fn lemma_password_of_seed(seed: Seed, digest: Seq<u8>)
    requires
        seed.characters.selected().len() >= 1,
        digest.len() == digest_length(seed.length),
        digest.len() <= usize::MAX,
    ensures
        password_from(seed.length as nat, seed.characters.sets(), digest).len() == seed.length,
        forall|i: int|
            0 <= i < seed.length ==> seed.characters.admits(
                #[trigger] password_from(seed.length as nat, seed.characters.sets(), digest)[i],
            ),
        forall|class: CharacterClass|
            seed.characters.has(class) ==> appearances(
                password_from(seed.length as nat, seed.characters.sets(), digest),
                #[trigger] class.alphabet(),
            ) >= min_frequency(seed.length as nat, seed.characters.selected().len()),
{
    let target_len = seed.length as nat;
    let sets = seed.characters.sets();
    let password = password_from(target_len, sets, digest);
    lemma_selection_usable(seed.characters);
    lemma_selected(seed.characters);
    lemma_password_length(target_len, sets, digest);
    lemma_password_alphabet(target_len, sets, digest);
    assert forall|i: int| 0 <= i < seed.length implies seed.characters.admits(
        #[trigger] password_from(seed.length as nat, seed.characters.sets(), digest)[i],
    ) by {
        assert(in_sets(password[i], sets));
        let s = choose|s: int| 0 <= s < sets.len() && in_alphabet(password[i], #[trigger] sets[s]);
        let class = seed.characters.selected()[s];
        assert(in_alphabet(password[i], class.alphabet()));
    }
    assert forall|class: CharacterClass| seed.characters.has(class) implies appearances(
        password_from(seed.length as nat, seed.characters.sets(), digest),
        #[trigger] class.alphabet(),
    ) >= min_frequency(seed.length as nat, seed.characters.selected().len()) by {
        let k = choose|k: int|
            0 <= k < seed.characters.selected().len() && #[trigger] seed.characters.selected()[k]
                == class;
        assert(sets[k] == class.alphabet());
        lemma_password_representation(target_len, sets, digest, k);
    }
}

/// The user name is no part of what a password is derived from: seeds that
/// differ in nothing else give the same password.
pub proof fn lemma_username_ignored(key: Seq<char>, pepper: Seq<u8>, a: Seed, b: Seed)
    requires
        a.identifier@ == b.identifier@,
        a.length == b.length,
        a.salt == b.salt,
        a.characters == b.characters,
    ensures
        derivable(key, pepper, a) == derivable(key, pepper, b),
        derived_password(key, pepper, a) == derived_password(key, pepper, b),
{
}

/// The eight bytes of the salt, the most significant first.
pub fn salt_to_bytes(salt: u64) -> (bytes: Vec<u8>)
    ensures
        bytes@ == salt_bytes(salt),
{
    let mut bytes: Vec<u8> = Vec::new();
    bytes.push((salt / 0x0100_0000_0000_0000) as u8);
    bytes.push((salt / 0x0001_0000_0000_0000 % 256) as u8);
    bytes.push((salt / 0x0000_0100_0000_0000 % 256) as u8);
    bytes.push((salt / 0x0000_0001_0000_0000 % 256) as u8);
    bytes.push((salt / 0x0000_0000_0100_0000 % 256) as u8);
    bytes.push((salt / 0x0000_0000_0001_0000 % 256) as u8);
    bytes.push((salt / 0x0000_0000_0000_0100 % 256) as u8);
    bytes.push((salt % 256) as u8);
    assert(bytes@ =~= salt_bytes(salt));
    bytes
}

/// Hashes the data, in UTF-8, with Argon2.
fn hash(data: &str, salt: &[u8], config: &HashConfig) -> (r: Result<Vec<u8>, VaultError>)
    ensures
        r.is_ok() == argon2_accepts(
            encode_utf8(data@).len(),
            salt@.len(),
            config.secret@.len(),
            config.hash_length,
        ),
        r matches Ok(digest) ==> digest@ == argon2_raw(
            encode_utf8(data@),
            salt@,
            config.secret@,
            config.variant,
            config.hash_length,
        ) && digest@.len() == config.hash_length,
        r matches Err(e) ==> e == VaultError::Hashing,
{
    match hash_raw(data.as_bytes(), salt, config) {
        Ok(digest) => Ok(digest),
        Err(_) => Err(VaultError::Hashing),
    }
}

/// The password that the seed asks for, made from a digest: a table is built
/// from the digest over the sets of the seed, balanced, and assembled.
pub fn password_from_digest(seed: &Seed, digest: &[u8]) -> (password: String)
    requires
        seed.characters.selected().len() >= 1,
    ensures
        password@ == password_from(seed.length as nat, seed.characters.sets(), digest@),
        digest@.len() == digest_length(seed.length) ==> {
            &&& password@.len() == seed.length
            &&& forall|i: int| 0 <= i < seed.length ==> seed.characters.admits(#[trigger] password@[i])
            &&& forall|class: CharacterClass|
                seed.characters.has(class) ==> appearances(password@, #[trigger] class.alphabet())
                    >= min_frequency(seed.length as nat, seed.characters.selected().len())
        },
{
    let bytes = digest.len();
    proof {
        lemma_selection_usable(seed.characters);
        if bytes == digest_length(seed.length) {
            lemma_password_of_seed(*seed, digest@);
        }
    }
    PasswordTable::new(seed.length as usize, seed.characters.get(), digest).balance().build()
}

/// Derives the password that key, pepper and seed give.
///
/// The key and the identifier of the seed, one after the other, are hashed
/// with Argon2d: the salt is the salt of the seed in eight bytes, the most
/// significant first; the secret is the pepper; the digest has two bytes for
/// each character of the password, and four at least. The password is made
/// from the digest as [`password_from_digest`] says.
///
/// No password is derived where Argon2 refuses: for a length above 2^31 - 1,
/// or a key with identifier, or a pepper, of more than 2^32 - 1 bytes.
pub fn password(key: &str, pepper: &[u8], seed: &Seed) -> (r: Result<String, VaultError>)
    requires
        seed.characters.selected().len() >= 1,
    ensures
        r.is_ok() == derivable(key@, pepper@, *seed),
        r matches Ok(password) ==> {
            &&& password@ == derived_password(key@, pepper@, *seed)
            &&& password@.len() == seed.length
            &&& forall|i: int| 0 <= i < seed.length ==> seed.characters.admits(#[trigger] password@[i])
            &&& forall|class: CharacterClass|
                seed.characters.has(class) ==> appearances(password@, #[trigger] class.alphabet())
                    >= min_frequency(seed.length as nat, seed.characters.selected().len())
        },
        r matches Err(e) ==> e == VaultError::Hashing,
{
    if seed.length > 0x7FFF_FFFF {
        return Err(VaultError::Hashing);
    }
    let hash_length: u32 = if seed.length < 2 { 4 } else { seed.length * 2 };
    let mut config = default_config();
    config.hash_length = hash_length;
    config.secret = slice_to_vec(pepper);
    config.variant = Variant::Argon2d;
    let mut data = key.to_owned();
    data.append(seed.identifier.as_str());
    let salt = salt_to_bytes(seed.salt);
    match hash(data.as_str(), salt.as_slice(), &config) {
        Ok(digest) => {
            proof {
                lemma_password_of_seed(*seed, digest@);
            }
            Ok(password_from_digest(seed, digest.as_slice()))
        },
        Err(e) => Err(e),
    }
}

/// A new pepper: twenty random bytes.
pub fn pepper() -> (pepper: Vec<u8>)
    ensures
        pepper.len() == 20,
{
    let mut buffer: Vec<u8> = vec![0u8; 20];
    fill_random(&mut buffer);
    buffer
}

/// The token that stands for the key in a vault with this pepper: the key is
/// hashed with Argon2 as it is configured by default, with the pepper as
/// salt. No token is made where Argon2 refuses: for a pepper of less than 8
/// bytes, or a key or pepper of more than 2^32 - 1 bytes.
pub fn auth_token(key: &str, vault_pepper: &[u8]) -> (r: Result<Vec<u8>, VaultError>)
    ensures
        r.is_ok() == tokenizable(key@, vault_pepper@),
        r matches Ok(token) ==> token@ == token_of(key@, vault_pepper@) && token.len() == 32,
        r matches Err(e) ==> e == VaultError::Hashing,
{
    let config = default_config();
    hash(key, vault_pepper, &config)
}

} // verus!
