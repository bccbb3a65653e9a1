//! Deterministic password derivation.
//!
//! A password is never stored. It is derived, every time it is asked for, from
//! three things:
//!
//! * a key that the user chooses and types in,
//! * a pepper that belongs to the [`Vault`](vault::Vault) and is kept with it,
//! * a [`Seed`](seed::Seed) that says how one password is to be made.
//!
//! [`generate::password`] hashes the three into a digest, builds a
//! [`PasswordTable`](table::PasswordTable) from the digest, balances the table
//! so that every selected character class has its share, and reads the
//! password off it.
//!
//! The other modules hold what a front end needs and does not draw: the line
//! of text and the number that the user edits ([`input`]), forms and dialogs
//! ([`form`], [`dialog`]), and the screen that lists the seeds of a vault
//! ([`vault_view`]). What the library calls and does not verify is in
//! [`trusted`].

pub mod dialog;
pub mod form;
pub mod generate;
pub mod input;
pub mod path;
pub mod result;
pub mod seed;
pub mod shared;
pub mod state;
pub mod table;
pub mod text;
pub mod trusted;
pub mod utility;
pub mod vault;
pub mod vault_view;
