//! The classes of characters that the scanner tells apart.

use vstd::prelude::*;

verus! {

/// `+`, `=` and `;`: the characters that are tokens by themselves.
pub open spec fn is_symbol(c: char) -> bool {
    c == '+' || c == '=' || c == ';'
}

/// `c` can stand in an identifier or an integer literal: it is no symbol, no
/// quote and no space.
pub open spec fn is_word(c: char) -> bool {
    !is_symbol(c) && c != '"' && c != ' '
}

/// Every character of `s` is a space.
pub open spec fn all_spaces(s: Seq<char>) -> bool {
    forall|i: int| 0 <= i < s.len() ==> #[trigger] s[i] == ' '
}

/// Every character of `s` can stand in an identifier or an integer literal.
pub open spec fn all_words(s: Seq<char>) -> bool {
    forall|i: int| 0 <= i < s.len() ==> is_word(#[trigger] s[i])
}

/// No character of `s` is a quote or a symbol, so that between two quotes
/// all of `s` is taken as text.
pub open spec fn quotable(s: Seq<char>) -> bool {
    forall|i: int| 0 <= i < s.len() ==> !is_symbol(#[trigger] s[i]) && s[i] != '"'
}

/// The number of quotes in `s` is odd: read from outside quotes, `s` ends
/// inside them.
pub open spec fn odd_quotes(s: Seq<char>) -> bool
    decreases s.len(),
{
    if s.len() == 0 {
        false
    } else {
        odd_quotes(s.drop_last()) != (s.last() == '"')
    }
}

/// Every symbol of `s` has an even number of quotes before it: none stands
/// between an opening quote and the quote that closes it.
pub open spec fn symbols_outside_quotes(s: Seq<char>) -> bool {
    forall|i: int| 0 <= i < s.len() && is_symbol(#[trigger] s[i]) ==> !odd_quotes(s.take(i))
}

} // verus!
