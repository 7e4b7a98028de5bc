//! Building strings: a word's characters, and a number in decimal.

use vstd::prelude::*;
use crate::chars::{plain_text, ClassifiedChar};

verus! {

/// Not proved: `String::push` of the standard library appends the character
/// to the end of the string and leaves what stood before it as it was.
pub assume_specification[ String::push ](s: &mut String, ch: char)
    ensures
        final(s)@ == old(s)@.push(ch),
;

/// The characters of `word` as a string.
pub fn spell(word: &[ClassifiedChar]) -> (s: String)
    ensures
        s@ == plain_text(word@),
{
    let mut s = String::new();
    let mut i: usize = 0;
    while i < word.len()
        invariant
            i <= word.len(),
            s@ == plain_text(word@.take(i as int)),
        decreases word.len() - i,
    {
        s.push(word[i].ch);
        i += 1;
        assert(plain_text(word@.take(i as int)) =~= plain_text(word@.take(i - 1)).push(
            word@[i - 1].ch,
        ));
    }
    assert(word@.take(i as int) =~= word@);
    s
}

/// The character that writes the digit `d`: `'0'` for 0 and so on up to
/// `'9'` for 9.
pub open spec fn digit_char(d: nat) -> char
    recommends
        d < 10,
{
    ('0' as nat + d) as char
}

/// The decimal numeral of `n`, without sign and without leading zeros.
pub open spec fn decimal(n: nat) -> Seq<char>
    decreases n,
{
    if n < 10 {
        seq![digit_char(n)]
    } else {
        decimal(n / 10).push(digit_char(n % 10))
    }
}

/// The number that the digits `t` write in decimal.
pub open spec fn numeral_value(t: Seq<char>) -> nat
    decreases t.len(),
{
    if t.len() == 0 {
        0
    } else {
        (numeral_value(t.drop_last()) * 10 + (t.last() as nat - '0' as nat)) as nat
    }
}

/// `decimal(n)` is made of digits, has at least one, starts with `'0'` only
/// when `n` is 0, and writes `n`.
pub proof fn lemma_decimal(n: nat)
    ensures
        decimal(n).len() >= 1,
        forall|k: int| 0 <= k < decimal(n).len() ==> '0' <= #[trigger] decimal(n)[k] <= '9',
        decimal(n)[0] == '0' <==> n == 0,
        numeral_value(decimal(n)) == n,
    decreases n,
{
    if n < 10 {
        assert(decimal(n).drop_last() =~= Seq::empty());
        reveal_with_fuel(numeral_value, 2);
    } else {
        lemma_decimal(n / 10);
        assert(decimal(n).drop_last() =~= decimal(n / 10));
        assert(decimal(n)[0] == decimal(n / 10)[0]);
    }
}

/// Writes the digit `d`.
fn digit(d: usize) -> (c: char)
    requires
        d < 10,
    ensures
        c == digit_char(d as nat),
{
    ('0' as u8 + d as u8) as char
}

/// Appends the decimal numeral of `n` to `s`.
pub fn push_decimal(s: &mut String, n: usize)
    ensures
        final(s)@ == old(s)@ + decimal(n as nat),
    decreases n,
{
    if n >= 10 {
        push_decimal(s, n / 10);
    }
    s.push(digit(n % 10));
}

} // verus!
