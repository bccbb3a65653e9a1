//! The errors that the library's functions return.

use vstd::prelude::*;

use crate::text::{decimal, decimal_string};
use vstd::string::StringExecFns;

verus! {

/// What can go wrong.
#[derive(Debug, PartialEq, Eq)]
pub enum VaultError {
    /// A vault of this name exists already.
    VaultNameConflict(String),
    /// The vault has no seed at this index.
    SeedIndex(usize),
    /// The hash function refused what it was given. No digest was made, and so
    /// no password or token.
    Hashing,
}

impl VaultError {
    /// What [`VaultError::message`] says. No message holds a key or a
    /// password.
    pub open spec fn text(self) -> Seq<char> {
        match self {
            VaultError::VaultNameConflict(name) => "Vault name '"@ + name@
                + "' already exists. Try a different name"@,
            VaultError::SeedIndex(index) => "Seed index "@ + decimal(index as nat)
                + " out-of-bounds. This is a bug, please report to Mr. Simon."@,
            VaultError::Hashing => "The hash function refused its input. No digest was made."@,
        }
    }

    /// The error in words.
    pub fn message(&self) -> (message: String)
        ensures
            message@ == self.text(),
    {
        match self {
            VaultError::VaultNameConflict(name) => {
                let mut message = "Vault name '".to_owned();
                message.append(name.as_str());
                message.append("' already exists. Try a different name");
                message
            },
            VaultError::SeedIndex(index) => {
                let mut message = "Seed index ".to_owned();
                let digits = decimal_string(false, *index as u64);
                message.append(digits.as_str());
                message.append(" out-of-bounds. This is a bug, please report to Mr. Simon.");
                message
            },
            VaultError::Hashing => "The hash function refused its input. No digest was made.".to_owned(),
        }
    }
}

} // verus!
