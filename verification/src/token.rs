//! Tokens and their mathematical model.

use vstd::prelude::*;
use crate::chars::{all_words, quotable};
use crate::std_specs::numeric;

verus! {

/// A classified piece of the input, or one of the markers that the scanner
/// hands out while it works.
#[derive(Debug)]
pub enum Token {
    /// An identifier: a run of characters that does not start with a digit.
    Var(String),
    /// The characters between two double quotes, without the quotes.
    Str(String),
    /// A run of characters that starts with a digit, kept as text.
    Int(String),
    /// The symbol `+`.
    Add,
    /// The symbol `=`.
    Ass,
    /// The sentinel at the head of every token sequence.
    START,
    /// "Nothing to append": the character read produced no new token.
    IGNORE,
    /// The symbol `;`.
    EOL,
    /// The input is exhausted.
    EOF,
}

/// What a [`Token`] is, with its text as a sequence of characters.
pub enum TokenView {
    Var(Seq<char>),
    Str(Seq<char>),
    Int(Seq<char>),
    Add,
    Ass,
    START,
    IGNORE,
    EOL,
    EOF,
}

impl TokenView {
    /// One of the six kinds that scanning appends: neither the sentinel nor
    /// one of the two markers that are never stored.
    pub open spec fn is_lexical(self) -> bool {
        !(self is START) && !(self is IGNORE) && !(self is EOF)
    }

    /// The text fits the kind: an identifier is a run of word characters that
    /// starts with no digit, an integer literal one that starts with a digit,
    /// and a string holds neither a quote nor a symbol.
    pub open spec fn wf(self) -> bool {
        match self {
            TokenView::Var(t) => t.len() > 0 && all_words(t) && !numeric(t[0]),
            TokenView::Int(t) => t.len() > 0 && all_words(t) && numeric(t[0]),
            TokenView::Str(t) => quotable(t),
            _ => true,
        }
    }

    /// The same token with `c` added at the end of its text; a token without
    /// text is left as it is.
    pub open spec fn append(self, c: char) -> TokenView {
        match self {
            TokenView::Var(t) => TokenView::Var(t.push(c)),
            TokenView::Str(t) => TokenView::Str(t.push(c)),
            TokenView::Int(t) => TokenView::Int(t.push(c)),
            other => other,
        }
    }
}

impl View for Token {
    type V = TokenView;

    open spec fn view(&self) -> TokenView {
        match self {
            Token::Var(s) => TokenView::Var(s@),
            Token::Str(s) => TokenView::Str(s@),
            Token::Int(s) => TokenView::Int(s@),
            Token::Add => TokenView::Add,
            Token::Ass => TokenView::Ass,
            Token::START => TokenView::START,
            Token::IGNORE => TokenView::IGNORE,
            Token::EOL => TokenView::EOL,
            Token::EOF => TokenView::EOF,
        }
    }
}

/// The tokens of a sequence, each by its view.
pub open spec fn views(tokens: Seq<Token>) -> Seq<TokenView> {
    tokens.map_values(|t: Token| t@)
}

impl Token {
    /// The token that `c` opens when no run is open: an integer literal if
    /// `digit` says that `c` is a digit, an identifier if not; `c` is its
    /// whole text.
    pub fn open_run(c: char, digit: bool) -> (token: Token)
        ensures
            token@ == (if digit {
                TokenView::Int(seq![c])
            } else {
                TokenView::Var(seq![c])
            }),
    {
        let mut text = String::new();
        text.push(c);
        assert(text@ =~= seq![c]);
        if digit {
            Token::Int(text)
        } else {
            Token::Var(text)
        }
    }

    /// Adds `c` at the end of the text of an identifier, a string or an
    /// integer literal; any other token is left as it is.
    pub fn push_char(&mut self, c: char)
        ensures
            final(self)@ == old(self)@.append(c),
    {
        match self {
            Token::Var(text) => text.push(c),
            Token::Str(text) => text.push(c),
            Token::Int(text) => text.push(c),
            _ => {},
        }
    }
}

impl Clone for Token {
    fn clone(&self) -> (res: Token)
        ensures
            res@ == self@,
    {
        match self {
            Token::Var(s) => Token::Var(s.clone()),
            Token::Str(s) => Token::Str(s.clone()),
            Token::Int(s) => Token::Int(s.clone()),
            Token::Add => Token::Add,
            Token::Ass => Token::Ass,
            Token::START => Token::START,
            Token::IGNORE => Token::IGNORE,
            Token::EOL => Token::EOL,
            Token::EOF => Token::EOF,
        }
    }
}

impl PartialEq for Token {
    /// Two tokens are equal when they are of one kind and hold the same text.
    fn eq(&self, other: &Token) -> (r: bool) {
        match (self, other) {
            (Token::Var(a), Token::Var(b)) => *a == *b,
            (Token::Str(a), Token::Str(b)) => *a == *b,
            (Token::Int(a), Token::Int(b)) => *a == *b,
            (Token::Add, Token::Add) => true,
            (Token::Ass, Token::Ass) => true,
            (Token::START, Token::START) => true,
            (Token::IGNORE, Token::IGNORE) => true,
            (Token::EOL, Token::EOL) => true,
            (Token::EOF, Token::EOF) => true,
            _ => false,
        }
    }
}

impl vstd::std_specs::cmp::PartialEqSpecImpl for Token {
    open spec fn obeys_eq_spec() -> bool {
        true
    }

    open spec fn eq_spec(&self, other: &Token) -> bool {
        self@ == other@
    }
}

} // verus!
