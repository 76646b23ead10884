//! Decimal text of natural numbers: plain, as `Display` for the integer
//! types renders them, and as candid renders its `Nat`.

use vstd::prelude::*;
use crate::text::string_from_chars;

verus! {

/// `s` cut into groups of three characters counted from the right, joined
/// by underscores.
pub open spec fn grouped_by_threes(s: Seq<char>) -> Seq<char>
    decreases s.len(),
{
    if s.len() <= 3 {
        s
    } else {
        grouped_by_threes(s.subrange(0, s.len() - 3)) + seq!['_'] + s.subrange(s.len() - 3, s.len() as int)
    }
}

/// The text candid renders a natural number as: its decimal digits grouped
/// by threes from the right, joined by underscores.
pub open spec fn nat_text(n: u128) -> Seq<char> {
    grouped_by_threes(decimal(n as nat))
}

/// `Display for candid::Nat`: the decimal digits of a natural number in
/// groups of three from the right, joined by underscores.
#[verifier::external_body]
pub(crate) fn nat_to_text(n: u128) -> (t: String)
    ensures
        t@ == nat_text(n),
{
    candid::Nat::from(n).to_string()
}

/// The decimal digit `d`.
pub open spec fn digit_char(d: nat) -> char {
    ((48 + d) as u32) as char
}

/// The decimal digits of `n`, most significant first, without leading zeros.
pub open spec fn decimal(n: nat) -> Seq<char>
    decreases n,
{
    if n < 10 {
        seq![digit_char(n)]
    } else {
        decimal(n / 10).push(digit_char(n % 10))
    }
}

fn decimal_chars(n: u128) -> (v: Vec<char>)
    ensures
        v@ == decimal(n as nat),
    decreases n,
{
    let d = (n % 10) as u8;
    let c = (48u8 + d) as char;
    assert(c == digit_char((n % 10) as nat));
    if n < 10 {
        let mut v: Vec<char> = Vec::new();
        v.push(c);
        assert(v@ =~= seq![digit_char(n as nat)]);
        v
    } else {
        let mut v = decimal_chars(n / 10);
        v.push(c);
        v
    }
}

/// `Display` for an unsigned integer: its decimal digits.
pub fn decimal_text(n: u128) -> (t: String)
    ensures
        t@ == decimal(n as nat),
{
    string_from_chars(&decimal_chars(n))
}

} // verus!
