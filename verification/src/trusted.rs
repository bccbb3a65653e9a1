//! What this library takes on trust: the contracts of the functions that it
//! calls and does not verify.

use vstd::prelude::*;

use crate::generate::{HashConfig, Variant};

verus! {

/// `String::push` appends one character to the end of the string.
pub assume_specification[ String::push ](s: &mut String, ch: char)
    ensures
        final(s)@ == old(s)@.push(ch),
;

/// Whether `char::is_alphanumeric` holds of the character: whether Unicode
/// has it as a letter or a number.
pub uninterp spec fn alphanumeric(c: char) -> bool;

/// `char::is_alphanumeric`.
pub assume_specification[ char::is_alphanumeric ](c: char) -> (r: bool)
    ensures
        r == alphanumeric(c),
;

/// Whether `char::is_whitespace` holds of the character: whether Unicode has
/// it as white space.
pub uninterp spec fn whitespace(c: char) -> bool;

/// `char::is_whitespace`.
pub assume_specification[ char::is_whitespace ](c: char) -> (r: bool)
    ensures
        r == whitespace(c),
;

/// The error of the `argon2` crate.
#[verifier::external_type_specification]
#[verifier::external_body]
pub struct ExHashError(argon2::Error);

/// The digest that `argon2::hash_raw` makes of `data` with this salt, secret,
/// variant and length of output, everything else as `argon2::Config::default()`
/// has it: no associated data, one lane, 4096 KiB of memory, three passes,
/// version 0x13. Argon2 is deterministic: the digest depends on nothing else.
pub uninterp spec fn argon2_raw(
    data: Seq<u8>,
    salt: Seq<u8>,
    secret: Seq<u8>,
    variant: Variant,
    hash_length: u32,
) -> Seq<u8>;

/// Whether `argon2::hash_raw` accepts lengths like these, everything else as
/// `argon2::Config::default()` has it. It checks its input before it does
/// anything else: the salt has 8 bytes at least, the output 4 at least, and no
/// length is above 2^32 - 1.
pub open spec fn argon2_accepts(data_len: nat, salt_len: nat, secret_len: nat, hash_length: u32) -> bool {
    &&& data_len <= 0xFFFF_FFFF
    &&& 8 <= salt_len <= 0xFFFF_FFFF
    &&& secret_len <= 0xFFFF_FFFF
    &&& hash_length >= 4
}

/// `argon2::Config::default()`, of which this library reads the length of the
/// output (32), the secret (none) and the variant (Argon2i).
#[verifier::external_body]
pub(crate) fn default_config() -> (config: HashConfig)
    ensures
        config.hash_length == 32,
        config.secret@ == Seq::<u8>::empty(),
        config.variant == Variant::Argon2i,
{
    let outside = argon2::Config::default();
    HashConfig {
        hash_length: outside.hash_length,
        secret: outside.secret.to_vec(),
        variant: match outside.variant {
            argon2::Variant::Argon2d => Variant::Argon2d,
            argon2::Variant::Argon2i => Variant::Argon2i,
            argon2::Variant::Argon2id => Variant::Argon2id,
        },
    }
}

/// `argon2::hash_raw` with `argon2::Config::default()` in which the length of
/// the output, the secret and the variant are those of `config`. It returns an
/// error exactly where `argon2_accepts` is false, and otherwise the digest,
/// which has the length that was asked for.
#[verifier::external_body]
pub(crate) fn hash_raw(data: &[u8], salt: &[u8], config: &HashConfig) -> (r: Result<
    Vec<u8>,
    argon2::Error,
>)
    ensures
        r.is_ok() == argon2_accepts(
            data@.len(),
            salt@.len(),
            config.secret@.len(),
            config.hash_length,
        ),
        r matches Ok(digest) ==> digest@ == argon2_raw(
            data@,
            salt@,
            config.secret@,
            config.variant,
            config.hash_length,
        ) && digest@.len() == config.hash_length,
{
    let mut outside = argon2::Config::default();
    outside.hash_length = config.hash_length;
    outside.secret = config.secret.as_slice();
    outside.variant = match config.variant {
        Variant::Argon2d => argon2::Variant::Argon2d,
        Variant::Argon2i => argon2::Variant::Argon2i,
        Variant::Argon2id => argon2::Variant::Argon2id,
    };
    argon2::hash_raw(data, salt, &outside)
}

/// What `deunicode::AsciiChars::ascii_chars` yields for a text: one item for
/// each character of the text, in order, which is the character written out
/// in ASCII, or nothing where the crate knows no way to write it. The items
/// depend on the text alone.
pub uninterp spec fn ascii_chars(text: Seq<char>) -> Seq<Option<Seq<char>>>;

/// What each of the items holds.
pub open spec fn item_views(items: Seq<Option<Vec<char>>>) -> Seq<Option<Seq<char>>> {
    Seq::new(
        items.len(),
        |i: int|
            match items[i] {
                Some(chars) => Some(chars@),
                None => None,
            },
    )
}

/// `deunicode::AsciiChars::ascii_chars` on a `str`, the items collected, each
/// as its characters.
#[verifier::external_body]
pub(crate) fn transliterate(text: &str) -> (items: Vec<Option<Vec<char>>>)
    ensures
        item_views(items@) == ascii_chars(text@),
{
    deunicode::AsciiChars::ascii_chars(text).map(|item| item.map(|s| s.chars().collect())).collect()
}

/// The score of the best match that `sublime_fuzzy::best_match` finds for a
/// query in a target, or nothing where it finds no match. It depends on the
/// query and the target alone.
pub uninterp spec fn fuzzy_score(query: Seq<char>, target: Seq<char>) -> Option<isize>;

/// `sublime_fuzzy::best_match`, and of the match its `score()`.
#[verifier::external_body]
pub(crate) fn best_match_score(query: &str, target: &str) -> (score: Option<isize>)
    ensures
        score == fuzzy_score(query@, target@),
{
    sublime_fuzzy::best_match(query, target).map(|found| found.score())
}

/// The lines that `textwrap::wrap` makes of a text for a width, with the
/// options that it has by default for that width. They depend on the text and
/// the width alone.
pub uninterp spec fn wrapped(text: Seq<char>, width: u16) -> Seq<Seq<char>>;

/// What each of the lines holds.
pub open spec fn line_views(lines: Seq<String>) -> Seq<Seq<char>> {
    Seq::new(lines.len(), |i: int| lines[i]@)
}

/// `textwrap::wrap` with a width, each line as a string of its own.
#[verifier::external_body]
pub(crate) fn wrap(text: &str, width: u16) -> (lines: Vec<String>)
    ensures
        line_views(lines@) == wrapped(text@, width),
{
    textwrap::wrap(text, usize::from(width)).into_iter().map(|line| line.into_owned()).collect()
}

/// The style of a piece of text on the terminal, of the `tui` crate.
#[verifier::external_type_specification]
#[verifier::external_body]
pub struct ExTextStyle(tui::style::Style);

/// `Style::default()` of the `tui` crate: the style that changes nothing.
pub assume_specification[ <tui::style::Style as Default>::default ]() -> tui::style::Style
;

/// `rand::Rng::fill` on `rand::thread_rng()`: every byte of the buffer is
/// replaced by a random one. Nothing is known of the bytes, only that there are
/// as many as before.
#[verifier::external_body]
pub(crate) fn fill_random(buffer: &mut Vec<u8>)
    ensures
        final(buffer)@.len() == old(buffer)@.len(),
{
    rand::Rng::fill(&mut rand::thread_rng(), buffer.as_mut_slice());
}

} // verus!
