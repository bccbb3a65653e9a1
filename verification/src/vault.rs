//! The vault: the seeds of one user, with the pepper that their passwords are
//! derived with and the token that the user's key is checked against.

use vstd::prelude::*;

use crate::generate;
use crate::generate::{appearances, derivable, derived_password, token_of, tokenizable};
use crate::path::{file_name_of, join, vault_path};
use crate::result::VaultError;
use crate::seed::{CharacterClass, Seed};
use crate::table::min_frequency;
use crate::trusted::transliterate;
use vstd::slice::slice_to_vec;
use vstd::utf8::encode_utf8;

verus! {

/// What the file of a vault holds.
#[derive(Debug)]
pub struct VaultRecord {
    /// The name of the vault.
    pub identifier: String,
    /// The pepper of the vault.
    pub pepper: Vec<u8>,
    /// The seeds, in the order in which they are shown.
    pub seeds: Vec<Seed>,
    /// The token that stands for the key of the vault.
    pub auth_token: Vec<u8>,
}

/// What a vault is, to a contract.
pub struct VaultState {
    /// The path of the vault's file.
    pub path: Seq<char>,
    /// The name of the vault.
    pub identifier: Seq<char>,
    /// The pepper of the vault.
    pub pepper: Seq<u8>,
    /// The seeds, in the order in which they are shown.
    pub seeds: Seq<Seed>,
    /// The token that stands for the key of the vault.
    pub auth_token: Seq<u8>,
}

/// The seeds of one user.
///
/// The pepper is made when the vault is, and never changes. The token is made
/// from the key that the vault is made with, and never changes either: a key
/// is checked against it, and the key cannot be had from it. No password is
/// kept: each is derived when it is asked for.
#[derive(Debug, Hash)]
pub struct Vault {
    path: String,
    identifier: String,
    pepper: Vec<u8>,
    seeds: Vec<Seed>,
    auth_token: Vec<u8>,
}

impl View for Vault {
    type V = VaultState;

    closed spec fn view(&self) -> VaultState {
        VaultState {
            path: self.path@,
            identifier: self.identifier@,
            pepper: self.pepper@,
            seeds: self.seeds@,
            auth_token: self.auth_token@,
        }
    }
}

impl VaultRecord {
    /// Whether the record holds what the vault holds, but for the path.
    pub open spec fn of(self, vault: VaultState) -> bool {
        &&& self.identifier@ == vault.identifier
        &&& self.pepper@ == vault.pepper
        &&& self.seeds@ == vault.seeds
        &&& self.auth_token@ == vault.auth_token
    }
}

/// A vault that is saved and loaded is the vault that it was, but for the
/// path: it gives the same passwords and accepts the same keys.
pub proof fn lemma_saved_and_loaded(before: VaultState, record: VaultRecord, after: VaultState)
    requires
        record.of(before),
        record.of(after),
    ensures
        after == (VaultState { path: after.path, ..before }),
        forall|key: Seq<char>, seed: Seed|
            derivable(key, after.pepper, seed) == derivable(key, before.pepper, seed)
                && #[trigger] derived_password(key, after.pepper, seed) == derived_password(
                key,
                before.pepper,
                seed,
            ),
        forall|key: Seq<char>|
            (#[trigger] token_of(key, after.pepper) == after.auth_token) == (token_of(
                key,
                before.pepper,
            ) == before.auth_token),
{
}

/// The greater of two indices.
pub open spec fn later(a: usize, b: usize) -> usize {
    if a >= b {
        a
    } else {
        b
    }
}

/// The sequence with the items at `a` and `b` exchanged.
pub open spec fn swapped(seeds: Seq<Seed>, a: int, b: int) -> Seq<Seed> {
    seeds.update(a, seeds[b]).update(b, seeds[a])
}

impl Vault {
    /// The path of the file of the vault with this identifier in this folder.
    /// The identifier is written out in ASCII, character by character, by the
    /// `deunicode` crate; of that, `.`, `_`, `-`, digits and letters are kept, the
    /// letters in lower case, and spaces as `_`; the first 249 characters of
    /// what is left, followed by `.vault`, are the name of the file.
    pub fn path_of(folder: &str, identifier: &str) -> (path: String)
        ensures
            path@ == vault_path(folder@, identifier@),
    {
        let items = transliterate(identifier);
        let name = file_name_of(&items);
        join(folder, name.as_str())
    }

    /// A new vault with a pepper of its own. `exists` says whether the file at
    /// [`Vault::path_of`] `(vault_folder, identifier)` is there already.
    ///
    /// No vault is made where the key cannot be hashed, or where the file
    /// exists.
    pub fn new(vault_folder: &str, identifier: String, key: &str, exists: bool) -> (r: Result<
        Vault,
        VaultError,
    >)
        ensures
            r.is_ok() == (encode_utf8(key@).len() <= 0xFFFF_FFFF && !exists),
            r matches Ok(vault) ==> {
                &&& vault@.path == vault_path(vault_folder@, identifier@)
                &&& vault@.identifier == identifier@
                &&& vault@.pepper.len() == 20
                &&& vault@.seeds.len() == 0
                &&& vault@.auth_token == token_of(key@, vault@.pepper)
            },
            r matches Err(e) ==> e == if encode_utf8(key@).len() > 0xFFFF_FFFF {
                VaultError::Hashing
            } else {
                VaultError::VaultNameConflict(identifier)
            },
    {
        Vault::with_pepper(vault_folder, identifier, key, generate::pepper(), exists)
    }

    /// A new vault with this pepper. `exists` says whether the file at
    /// [`Vault::path_of`] `(vault_folder, identifier)` is there already.
    ///
    /// No vault is made where the key cannot be hashed with the pepper, or
    /// where the file exists.
    pub fn with_pepper(
        vault_folder: &str,
        identifier: String,
        key: &str,
        pepper: Vec<u8>,
        exists: bool,
    ) -> (r: Result<Vault, VaultError>)
        ensures
            r.is_ok() == (tokenizable(key@, pepper@) && !exists),
            r matches Ok(vault) ==> {
                &&& vault@.path == vault_path(vault_folder@, identifier@)
                &&& vault@.identifier == identifier@
                &&& vault@.pepper == pepper@
                &&& vault@.seeds.len() == 0
                &&& vault@.auth_token == token_of(key@, pepper@)
            },
            r matches Err(e) ==> e == if !tokenizable(key@, pepper@) {
                VaultError::Hashing
            } else {
                VaultError::VaultNameConflict(identifier)
            },
    {
        let path = Vault::path_of(vault_folder, identifier.as_str());
        match generate::auth_token(key, pepper.as_slice()) {
            Err(e) => Err(e),
            Ok(auth_token) => {
                if exists {
                    Err(VaultError::VaultNameConflict(identifier))
                } else {
                    Ok(Vault { path, identifier, seeds: Vec::new(), pepper, auth_token })
                }
            },
        }
    }

    /// The vault that the file of the vault `identifier` in `vault_folder`
    /// holds. The path is made from the identifier that is asked for, not read
    /// from the file.
    pub fn load(vault_folder: &str, identifier: &str, record: VaultRecord) -> (vault: Vault)
        ensures
            vault@.path == vault_path(vault_folder@, identifier@),
            record.of(vault@),
    {
        Vault {
            path: Vault::path_of(vault_folder, identifier),
            identifier: record.identifier,
            pepper: record.pepper,
            seeds: record.seeds,
            auth_token: record.auth_token,
        }
    }

    /// What is to be written to the vault's file: everything but the path.
    pub fn save(&self) -> (record: VaultRecord)
        ensures
            record.of(self@),
    {
        let mut seeds: Vec<Seed> = Vec::new();
        let mut i: usize = 0;
        while i < self.seeds.len()
            invariant
                i <= self.seeds.len(),
                seeds@ == self.seeds@.take(i as int),
            decreases self.seeds.len() - i,
        {
            seeds.push(self.seeds[i].clone());
            i += 1;
            assert(seeds@ =~= self.seeds@.take(i as int));
        }
        assert(self.seeds@.take(self.seeds.len() as int) =~= self.seeds@);
        VaultRecord {
            identifier: self.identifier.clone(),
            pepper: slice_to_vec(self.pepper.as_slice()),
            seeds,
            auth_token: slice_to_vec(self.auth_token.as_slice()),
        }
    }

    /// The path of the vault's file.
    pub fn path(&self) -> (path: &str)
        ensures
            path@ == self@.path,
    {
        self.path.as_str()
    }

    /// The name of the vault.
    pub fn identifier(&self) -> (identifier: &str)
        ensures
            identifier@ == self@.identifier,
    {
        self.identifier.as_str()
    }

    /// The pepper of the vault.
    pub fn pepper(&self) -> (pepper: &[u8])
        ensures
            pepper@ == self@.pepper,
    {
        self.pepper.as_slice()
    }

    /// The token that stands for the key of the vault.
    pub fn auth_token(&self) -> (token: &[u8])
        ensures
            token@ == self@.auth_token,
    {
        self.auth_token.as_slice()
    }

    /// The seeds, in the order in which they are shown.
    pub fn seeds(&self) -> (seeds: &[Seed])
        ensures
            seeds@ == self@.seeds,
    {
        self.seeds.as_slice()
    }

    /// Adds a seed after the others. A seed may have the identifier of
    /// another: seeds are told apart by their place.
    pub fn push(&mut self, seed: Seed)
        ensures
            final(self)@ == (VaultState { seeds: old(self)@.seeds.push(seed), ..old(self)@ }),
    {
        self.seeds.push(seed);
    }

    /// Takes out the seed at `seed_index`. The seeds after it move up.
    pub fn remove(&mut self, seed_index: usize) -> (r: Result<(), VaultError>)
        ensures
            r.is_ok() == (seed_index < old(self)@.seeds.len()),
            r is Ok ==> final(self)@ == (VaultState {
                seeds: old(self)@.seeds.remove(seed_index as int),
                ..old(self)@
            }),
            r matches Err(e) ==> e == VaultError::SeedIndex(seed_index) && final(self)@ == old(
                self,
            )@,
    {
        if seed_index < self.seeds.len() {
            self.seeds.remove(seed_index);
            Ok(())
        } else {
            Err(VaultError::SeedIndex(seed_index))
        }
    }

    /// The seed at `seed_index`.
    pub fn get(&self, seed_index: usize) -> (r: Result<&Seed, VaultError>)
        ensures
            r.is_ok() == (seed_index < self@.seeds.len()),
            r matches Ok(seed) ==> *seed == self@.seeds[seed_index as int],
            r matches Err(e) ==> e == VaultError::SeedIndex(seed_index),
    {
        if seed_index < self.seeds.len() {
            Ok(&self.seeds[seed_index])
        } else {
            Err(VaultError::SeedIndex(seed_index))
        }
    }

    /// Exchanges the seeds at `a` and `b`. Where one of the two is no index of
    /// a seed, nothing changes, and the error names the greater of the two.
    pub fn swap(&mut self, a: usize, b: usize) -> (r: Result<(), VaultError>)
        ensures
            r.is_ok() == (a < old(self)@.seeds.len() && b < old(self)@.seeds.len()),
            r is Ok ==> final(self)@ == (VaultState {
                seeds: swapped(old(self)@.seeds, a as int, b as int),
                ..old(self)@
            }),
            r matches Err(e) ==> e == VaultError::SeedIndex(later(a, b)) && final(self)@ == old(
                self,
            )@,
    {
        let max = if a >= b { a } else { b };
        if max >= self.seeds.len() {
            Err(VaultError::SeedIndex(max))
        } else {
            if a != b {
                let low = if a < b { a } else { b };
                let ghost before = self.seeds@;
                let upper = self.seeds.remove(max);
                let lower = self.seeds.remove(low);
                self.seeds.insert(low, upper);
                self.seeds.insert(max, lower);
                assert(self.seeds@ =~= swapped(before, a as int, b as int));
            } else {
                assert(self.seeds@ =~= swapped(self.seeds@, a as int, b as int));
            }
            Ok(())
        }
    }

    /// Derives the password that the key, the pepper of the vault and the seed
    /// give. The key is not checked: see [`Vault::verify_key`].
    pub fn password(&self, seed: &Seed, key: &str) -> (r: Result<String, VaultError>)
        requires
            seed.characters.selected().len() >= 1,
        ensures
            r.is_ok() == derivable(key@, self@.pepper, *seed),
            r matches Ok(password) ==> {
                &&& password@ == derived_password(key@, self@.pepper, *seed)
                &&& password@.len() == seed.length
                &&& forall|i: int|
                    0 <= i < seed.length ==> seed.characters.admits(#[trigger] password@[i])
                &&& forall|class: CharacterClass|
                    seed.characters.has(class) ==> appearances(
                        password@,
                        #[trigger] class.alphabet(),
                    ) >= min_frequency(seed.length as nat, seed.characters.selected().len())
            },
            r matches Err(e) ==> e == VaultError::Hashing,
    {
        generate::password(key, self.pepper.as_slice(), seed)
    }

    /// Whether the key is the key that the vault was made with, as far as the
    /// token tells: whether the key, hashed with the pepper of the vault, gives
    /// the token of the vault.
    pub fn verify_key(&self, key: &str) -> (r: bool)
        ensures
            r == (tokenizable(key@, self@.pepper) && token_of(key@, self@.pepper)
                == self@.auth_token),
    {
        match generate::auth_token(key, self.pepper.as_slice()) {
            Ok(token) => {
                let same = token == self.auth_token;
                assert(same == (token@ =~= self.auth_token@));
                same
            },
            Err(_) => false,
        }
    }
}

} // verus!
