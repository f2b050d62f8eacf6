//! The scanner as a state machine over sequences: what one character does to
//! the accumulated tokens and to the quote flag.

use vstd::prelude::*;
use crate::chars::is_symbol;
use crate::std_specs::numeric;
use crate::token::TokenView;

verus! {

/// The token of a symbol character.
pub open spec fn symbol(c: char) -> TokenView {
    if c == '+' {
        TokenView::Add
    } else if c == '=' {
        TokenView::Ass
    } else {
        TokenView::EOL
    }
}

/// The token that a character opens when no run is open: an integer literal
/// for a digit, an identifier for anything else.
pub open spec fn fresh(c: char) -> TokenView {
    if numeric(c) {
        TokenView::Int(seq![c])
    } else {
        TokenView::Var(seq![c])
    }
}

/// The part of a scanner that decides: the tokens accumulated so far and
/// whether the scanner stands inside a quoted string.
pub struct Lexer {
    pub tokens: Seq<TokenView>,
    pub in_string: bool,
}

impl Lexer {
    /// The state before any character: the sentinel alone, outside quotes.
    pub open spec fn init() -> Lexer {
        Lexer { tokens: seq![TokenView::START], in_string: false }
    }

    /// The sequence starts with the sentinel, which stands nowhere else, and
    /// holds neither of the two markers that are never stored; the text of
    /// every token fits its kind.
    pub open spec fn wf(self) -> bool {
        &&& self.tokens.len() > 0
        &&& self.tokens[0] == TokenView::START
        &&& forall|i: int|
            0 < i < self.tokens.len() ==> (#[trigger] self.tokens[i]).is_lexical()
                && self.tokens[i].wf()
    }

    /// Outside quotes, and the last token is neither an integer nor an
    /// identifier: the next word character opens a token of its own.
    pub open spec fn no_open_run(self) -> bool {
        !self.in_string && !(self.tokens.last() is Int) && !(self.tokens.last() is Var)
    }

    /// The last token is closed: it is no integer and no identifier, and if
    /// it is a string, its closing quote has been read.
    pub open spec fn settled(self) -> bool {
        &&& !(self.tokens.last() is Int)
        &&& !(self.tokens.last() is Var)
        &&& !(self.tokens.last() is Str && self.in_string)
    }

    /// The last token alone, with the flag: all that a step looks at.
    pub open spec fn tip(self) -> Lexer {
        Lexer { tokens: seq![self.tokens.last()], in_string: self.in_string }
    }

    /// The tokens of this state, and behind them what a scan of `s` from the
    /// initial state gives.
    pub open spec fn followed_by(self, s: Seq<char>) -> Lexer {
        let rest = Lexer::init().feed_all(s);
        Lexer { tokens: self.tokens + rest.tokens.skip(1), in_string: rest.in_string }
    }

    /// `c` is text here: no symbol, no quote, and no space outside quotes.
    pub open spec fn is_text(self, c: char) -> bool {
        !is_symbol(c) && c != '"' && (c != ' ' || self.in_string)
    }

    /// `c` is text and the last token is the open run that takes it: a
    /// string inside quotes, an integer or an identifier outside.
    pub open spec fn grows(self, c: char) -> bool {
        &&& self.is_text(c)
        &&& if self.in_string {
            self.tokens.last() is Str
        } else {
            self.tokens.last() is Int || self.tokens.last() is Var
        }
    }

    /// What one step hands out on reading `c`: the token of a symbol; an
    /// empty string for an opening quote; the token that `c` opens where it
    /// is text outside quotes and no run takes it; `IGNORE` in every other
    /// case.
    pub open spec fn emit(self, c: char) -> TokenView {
        if is_symbol(c) {
            symbol(c)
        } else if c == '"' {
            if self.in_string {
                TokenView::IGNORE
            } else {
                TokenView::Str(Seq::empty())
            }
        } else if self.is_text(c) && !self.in_string && !self.grows(c) {
            fresh(c)
        } else {
            TokenView::IGNORE
        }
    }

    /// The state after one step has read `c`, before anything is appended.
    /// Text that the open run takes is added to the last token. A quote
    /// flips the flag, and text inside quotes that finds no string as the
    /// last token clears it.
    pub open spec fn read(self, c: char) -> Lexer {
        Lexer {
            tokens: if self.grows(c) {
                self.tokens.update(self.tokens.len() - 1, self.tokens.last().append(c))
            } else {
                self.tokens
            },
            in_string: if c == '"' {
                !self.in_string
            } else if self.is_text(c) && !self.grows(c) {
                false
            } else {
                self.in_string
            },
        }
    }

    /// One step followed by the driver's bookkeeping: whatever the step hands
    /// out is appended, unless it is the marker for "nothing".
    pub open spec fn feed(self, c: char) -> Lexer {
        let next = self.read(c);
        let token = self.emit(c);
        if token is IGNORE {
            next
        } else {
            Lexer { tokens: next.tokens.push(token), in_string: next.in_string }
        }
    }

    /// [`Lexer::feed`] for each character of `s` in turn.
    pub open spec fn feed_all(self, s: Seq<char>) -> Lexer
        decreases s.len(),
    {
        if s.len() == 0 {
            self
        } else {
            self.feed_all(s.drop_last()).feed(s.last())
        }
    }
}

} // verus!
