//! The scanner: it owns the input and the tokens accumulated from it.

use vstd::prelude::*;
use crate::machine::Lexer;
use crate::token::{views, Token, TokenView};

verus! {

/// What a [`Parser`] is: its input, how far it has read, and the state of
/// its machine.
pub struct ParserView {
    /// The characters to scan.
    pub input: Seq<char>,
    /// The index of the next character to read.
    pub pos: nat,
    /// The index of the character read last; 0 before the first.
    pub last_pos: nat,
    /// The accumulated tokens and the quote flag.
    pub lexer: Lexer,
}

impl ParserView {
    /// The cursor lies within the input, the character read last is the one
    /// before the cursor, and the tokens are well formed.
    pub open spec fn wf(self) -> bool {
        &&& self.pos <= self.input.len()
        &&& self.last_pos == if self.pos == 0 {
            0
        } else {
            self.pos - 1
        }
        &&& self.lexer.wf()
    }

    /// Every character has been read.
    pub open spec fn at_end(self) -> bool {
        self.pos >= self.input.len()
    }

    /// The characters that have not been read yet.
    pub open spec fn rest(self) -> Seq<char> {
        self.input.skip(self.pos as int)
    }

    /// What one step hands out.
    pub open spec fn next_token(self) -> TokenView {
        if self.at_end() {
            TokenView::EOF
        } else {
            self.lexer.emit(self.input[self.pos as int])
        }
    }

    /// The scanner after one step: at the end of the input nothing moves,
    /// before it one character is read.
    pub open spec fn after_next(self) -> ParserView {
        if self.at_end() {
            self
        } else {
            ParserView {
                input: self.input,
                pos: self.pos + 1,
                last_pos: self.pos,
                lexer: self.lexer.read(self.input[self.pos as int]),
            }
        }
    }

    /// The scanner after it has been driven to the end of its input.
    pub open spec fn after_parse(self) -> ParserView {
        if self.at_end() {
            self
        } else {
            ParserView {
                input: self.input,
                pos: self.input.len(),
                last_pos: (self.input.len() - 1) as nat,
                lexer: self.lexer.feed_all(self.rest()),
            }
        }
    }
}

/// A scanner over one input string.
pub struct Parser {
    /// The input, character by character.
    input_chars: Vec<char>,
    /// The tokens accumulated so far; the sentinel is the first.
    token_stack: Vec<Token>,
    /// The index of the next character to read.
    cur_pos: usize,
    /// The index of the character read last.
    last_pos: usize,
    /// Set between an opening quote and the quote that closes it.
    seek_str: bool,
}

impl View for Parser {
    type V = ParserView;

    closed spec fn view(&self) -> ParserView {
        ParserView {
            input: self.input_chars@,
            pos: self.cur_pos as nat,
            last_pos: self.last_pos as nat,
            lexer: Lexer { tokens: views(self.token_stack@), in_string: self.seek_str },
        }
    }
}

impl Parser {
    /// A scanner at the start of `input_str`, with the sentinel as its only
    /// token.
    pub fn new(input_str: String) -> (parser: Parser)
        ensures
            parser@.wf(),
            parser@.input == input_str@,
            parser@.pos == 0,
            parser@.last_pos == 0,
            parser@.lexer == Lexer::init(),
    {
        let mut input_chars: Vec<char> = Vec::new();
        for c in it: input_str.as_str().chars()
            invariant
                input_chars@ == it.seq().take(it.index()),
        {
            input_chars.push(c);
        }
        let mut token_stack: Vec<Token> = Vec::new();
        token_stack.push(Token::START);
        assert(views(token_stack@) =~= seq![TokenView::START]);
        Parser { input_chars, token_stack, cur_pos: 0, last_pos: 0, seek_str: false }
    }

    /// Reads one character and hands out what it gives: a new token for the
    /// driver to append, [`Token::IGNORE`] where there is nothing to append,
    /// [`Token::EOF`] once the input is exhausted. A character that continues
    /// the open run is added to the last accumulated token in place.
    pub fn next(&mut self) -> (token: Token)
        requires
            old(self)@.wf(),
        ensures
            token@ == old(self)@.next_token(),
            final(self)@ == old(self)@.after_next(),
            final(self)@.wf(),
    {
        if self.cur_pos >= self.input_chars.len() {
            return Token::EOF;
        }
        let c = self.input_chars[self.cur_pos];
        self.last_pos = self.cur_pos;
        self.cur_pos += 1;

        if c == '+' {
            Token::Add
        } else if c == '=' {
            Token::Ass
        } else if c == ';' {
            Token::EOL
        } else if c == ' ' && !self.seek_str {
            Token::IGNORE
        } else if c == '"' {
            if self.seek_str {
                self.seek_str = false;
                Token::IGNORE
            } else {
                self.seek_str = true;
                Token::Str(String::new())
            }
        } else {
            let i = self.token_stack.len() - 1;
            let grows = match &self.token_stack[i] {
                Token::Str(_) => self.seek_str,
                Token::Int(_) | Token::Var(_) => !self.seek_str,
                _ => false,
            };
            if grows {
                self.token_stack[i].push_char(c);
                assert(self@.lexer.tokens =~= old(self)@.lexer.read(c).tokens);
                Token::IGNORE
            } else if self.seek_str {
                self.seek_str = false;
                Token::IGNORE
            } else {
                Token::open_run(c, c.is_numeric())
            }
        }
    }

    /// Drives the scanner to the end of its input and returns the tokens
    /// accumulated: every token that a step hands out is appended before the
    /// next step looks at the last one. `IGNORE` and `EOF` are not appended.
    pub fn parse(&mut self) -> (tokens: &Vec<Token>)
        requires
            old(self)@.wf(),
        ensures
            final(self)@ == old(self)@.after_parse(),
            final(self)@.wf(),
            views(tokens@) == final(self)@.lexer.tokens,
    {
        let ghost start = self@;
        loop
            invariant
                start == old(self)@,
                start.wf(),
                self@.wf(),
                self@.input == start.input,
                self@.pos >= start.pos,
                self@.lexer == start.lexer.feed_all(
                    start.input.subrange(start.pos as int, self@.pos as int),
                ),
            ensures
                self@.at_end(),
            decreases self@.input.len() - self@.pos,
        {
            let ghost before = self@;
            let token = self.next();
            match token {
                Token::EOF => {
                    break;
                },
                Token::IGNORE => {},
                token => {
                    self.token_stack.push(token);
                },
            }
            proof {
                let c = before.input[before.pos as int];
                let read = start.input.subrange(start.pos as int, self@.pos as int);
                assert(read.drop_last() =~= start.input.subrange(
                    start.pos as int,
                    before.pos as int,
                ));
                assert(self@.lexer.tokens =~= before.lexer.feed(c).tokens);
            }
        }
        proof {
            assert(start.input.subrange(start.pos as int, self@.pos as int) =~= start.rest());
        }
        &self.token_stack
    }

    /// The tokens accumulated so far, the sentinel first.
    pub fn tokens(&self) -> (tokens: &Vec<Token>)
        ensures
            views(tokens@) == self@.lexer.tokens,
    {
        &self.token_stack
    }

    /// Whether the scanner stands inside a quoted string.
    pub fn in_string(&self) -> (flag: bool)
        ensures
            flag == self@.lexer.in_string,
    {
        self.seek_str
    }

    /// The index of the next character to read.
    pub fn position(&self) -> (pos: usize)
        ensures
            pos == self@.pos,
    {
        self.cur_pos
    }

    /// The index of the character read last; 0 before the first.
    pub fn last_position(&self) -> (pos: usize)
        ensures
            pos == self@.last_pos,
    {
        self.last_pos
    }
}

} // verus!
