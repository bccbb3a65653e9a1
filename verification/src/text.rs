//! Strings as sequences of characters.

use vstd::prelude::*;

verus! {

/// The characters of the string.
pub fn chars_of(text: &str) -> (chars: Vec<char>)
    ensures
        chars@ == text@,
{
    let mut chars: Vec<char> = Vec::new();
    for c in it: text.chars()
        invariant
            it.seq() == text@,
            chars@ == it.seq().take(it.index() as int),
    {
        chars.push(c);
        assert(chars@ =~= it.seq().take(it.index() + 1));
    }
    assert(chars@ =~= text@);
    chars
}

/// The string of these characters.
pub fn string_of(chars: &Vec<char>) -> (text: String)
    ensures
        text@ == chars@,
{
    let mut text = String::new();
    let mut i: usize = 0;
    while i < chars.len()
        invariant
            i <= chars.len(),
            text@ == chars@.take(i as int),
        decreases chars.len() - i,
    {
        text.push(chars[i]);
        i += 1;
        assert(text@ =~= chars@.take(i as int));
    }
    assert(chars@.take(chars.len() as int) =~= chars@);
    text
}

/// Whether two strings hold the same text.
pub fn same_text(a: &str, b: &str) -> (same: bool)
    ensures
        same == (a@ == b@),
{
    let left = chars_of(a);
    let right = chars_of(b);
    if left.len() != right.len() {
        return false;
    }
    let mut i: usize = 0;
    while i < left.len()
        invariant
            i <= left.len(),
            left.len() == right.len(),
            left@ == a@,
            right@ == b@,
            left@.take(i as int) == right@.take(i as int),
        decreases left.len() - i,
    {
        if left[i] != right[i] {
            assert(left@[i as int] != right@[i as int]);
            return false;
        }
        i += 1;
        assert(left@.take(i as int) =~= left@.take(i - 1).push(left@[i - 1]));
        assert(right@.take(i as int) =~= right@.take(i - 1).push(right@[i - 1]));
    }
    assert(left@.take(left.len() as int) =~= left@);
    assert(right@.take(right.len() as int) =~= right@);
    true
}

/// The character of a decimal digit.
pub open spec fn digit(d: nat) -> char {
    (48 + d) as char
}

/// The number in decimal digits, without leading zeros.
pub open spec fn decimal(n: nat) -> Seq<char>
    decreases n,
{
    if n < 10 {
        seq![digit(n)]
    } else {
        decimal(n / 10).push(digit(n % 10))
    }
}

/// The number in decimal digits, after a `-` if it is negative.
pub open spec fn signed_decimal(n: int) -> Seq<char> {
    if n < 0 {
        seq!['-'] + decimal((-n) as nat)
    } else {
        decimal(n as nat)
    }
}

/// The number in decimal digits, after a `-` if `negative` holds.
pub fn decimal_string(negative: bool, magnitude: u64) -> (text: String)
    ensures
        text@ == if negative {
            seq!['-'] + decimal(magnitude as nat)
        } else {
            decimal(magnitude as nat)
        },
{
    let mut digits: Vec<char> = Vec::new();
    let mut rest: u64 = magnitude;
    loop
        invariant_except_break
            decimal(magnitude as nat) == decimal(rest as nat) + digits@.reverse(),
        ensures
            decimal(magnitude as nat) == digits@.reverse(),
        decreases rest,
    {
        let ghost before = digits@;
        digits.push(((48 + rest % 10) as u8) as char);
        assert(digits@.reverse() =~= seq![digit((rest % 10) as nat)] + before.reverse());
        if rest < 10 {
            assert(decimal(rest as nat) + before.reverse() =~= digits@.reverse());
            break ;
        }
        assert(decimal(rest as nat) + before.reverse() =~= decimal((rest / 10) as nat)
            + digits@.reverse());
        rest = rest / 10;
    }
    let mut text = String::new();
    if negative {
        text.push('-');
    }
    let ghost sign = text@;
    let mut i: usize = digits.len();
    while i > 0
        invariant
            i <= digits.len(),
            text@ == sign + digits@.reverse().take(digits.len() - i),
        decreases i,
    {
        i -= 1;
        text.push(digits[i]);
        assert(text@ =~= sign + digits@.reverse().take(digits.len() - i));
    }
    assert(digits@.reverse().take(digits.len() as int) =~= digits@.reverse());
    assert(!negative ==> sign + digits@.reverse() =~= digits@.reverse());
    text
}

} // verus!
