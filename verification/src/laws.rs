//! What holds of the scanner on every input, proved over its state machine.
//!
//! A law speaks of a state `st` and of the characters scanned from it. For a
//! scanner that [`crate::Parser::new`] made, `st` is [`Lexer::init`] fed with
//! the part of the input that stands before those characters.

use vstd::prelude::*;
use vstd::seq_lib::{to_multiset_build, to_multiset_len, to_multiset_update};
use crate::chars::{
    all_spaces, all_words, is_symbol, odd_quotes, quotable, symbols_outside_quotes,
};
use crate::machine::{symbol, Lexer};
use crate::parser::ParserView;
use crate::std_specs::numeric;
use crate::token::TokenView;

verus! {

/// Scanning one character is one step with the driver's bookkeeping.
pub proof fn feed_all_one(st: Lexer, c: char)
    ensures
        st.feed_all(seq![c]) == st.feed(c),
{
    assert(seq![c].drop_last() =~= Seq::<char>::empty());
    reveal_with_fuel(Lexer::feed_all, 2);
}

/// Scanning `a` and then `b` is scanning `a + b`.
pub proof fn feed_all_concat(st: Lexer, a: Seq<char>, b: Seq<char>)
    ensures
        st.feed_all(a + b) == st.feed_all(a).feed_all(b),
    decreases b.len(),
{
    if b.len() == 0 {
        assert(a + b =~= a);
    } else {
        feed_all_concat(st, a, b.drop_last());
        assert((a + b).drop_last() =~= a + b.drop_last());
    }
}

/// Scanning `c` and then `s` is one step on `c`, then scanning `s`.
proof fn feed_all_first(st: Lexer, c: char, s: Seq<char>)
    ensures
        st.feed_all(seq![c] + s) == st.feed(c).feed_all(s),
{
    feed_all_concat(st, seq![c], s);
    feed_all_one(st, c);
}

/// One character keeps the token sequence well formed.
pub proof fn feed_keeps_wf(st: Lexer, c: char)
    requires
        st.wf(),
    ensures
        st.read(c).wf(),
        st.feed(c).wf(),
{
}

/// Whatever the input, driving the scanner over it gives a sequence that
/// starts with the sentinel, holds it nowhere else, and holds neither
/// `IGNORE` nor `EOF`; the text of every token in it fits its kind.
pub proof fn feed_all_keeps_wf(st: Lexer, s: Seq<char>)
    requires
        st.wf(),
    ensures
        st.feed_all(s).wf(),
    decreases s.len(),
{
    if s.len() > 0 {
        feed_all_keeps_wf(st, s.drop_last());
        feed_keeps_wf(st.feed_all(s.drop_last()), s.last());
    }
}

/// The sequence is append-only but for its last token: however the scan goes
/// on, it never gets shorter, and every token but the last stays what it is.
pub proof fn earlier_tokens_stay(st: Lexer, s: Seq<char>)
    requires
        st.tokens.len() > 0,
    ensures
        st.feed_all(s).tokens.len() >= st.tokens.len(),
        st.feed_all(s).tokens.take(st.tokens.len() - 1) == st.tokens.drop_last(),
    decreases s.len(),
{
    if s.len() == 0 {
        assert(st.tokens.take(st.tokens.len() - 1) =~= st.tokens.drop_last());
    } else {
        let mid = st.feed_all(s.drop_last());
        earlier_tokens_stay(st, s.drop_last());
        assert(mid.feed(s.last()).tokens.take(st.tokens.len() - 1) =~= mid.tokens.take(
            st.tokens.len() - 1,
        ));
    }
}

/// Once the last token is closed, no token changes any more: whatever
/// follows adds tokens behind those that are there, or adds nothing.
pub proof fn settled_tokens_stay(st: Lexer, s: Seq<char>)
    requires
        st.tokens.len() > 0,
        st.settled(),
    ensures
        st.feed_all(s).tokens.take(st.tokens.len() as int) == st.tokens,
        st.feed_all(s).tokens.len() == st.tokens.len() ==> st.feed_all(s).settled(),
    decreases s.len(),
{
    if s.len() == 0 {
        assert(st.tokens.take(st.tokens.len() as int) =~= st.tokens);
    } else {
        let mid = st.feed_all(s.drop_last());
        settled_tokens_stay(st, s.drop_last());
        earlier_tokens_stay(st, s.drop_last());
        if mid.tokens.len() == st.tokens.len() {
            assert(mid.tokens =~= mid.tokens.take(st.tokens.len() as int));
        }
        assert(mid.feed(s.last()).tokens.take(st.tokens.len() as int) =~= mid.tokens.take(
            st.tokens.len() as int,
        ));
    }
}

/// A step looks at the last token and at the flag, and at nothing else: the
/// tokens before the last one pass through a scan untouched, and what comes
/// behind them is what the last token alone would have given.
pub proof fn scan_is_local(st: Lexer, s: Seq<char>)
    requires
        st.tokens.len() > 0,
    ensures
        st.feed_all(s).tokens == st.tokens.drop_last() + st.tip().feed_all(s).tokens,
        st.feed_all(s).in_string == st.tip().feed_all(s).in_string,
    decreases s.len(),
{
    if s.len() == 0 {
        assert(st.tokens =~= st.tokens.drop_last() + st.tip().tokens);
    } else {
        let c = s.last();
        let whole = st.feed_all(s.drop_last());
        let part = st.tip().feed_all(s.drop_last());
        scan_is_local(st, s.drop_last());
        earlier_tokens_stay(st.tip(), s.drop_last());
        assert(whole.tokens.last() == part.tokens.last());
        assert(whole.read(c).tokens =~= st.tokens.drop_last() + part.read(c).tokens);
        assert(whole.feed(c).tokens =~= st.tokens.drop_last() + part.feed(c).tokens);
    }
}

/// Two states of one token each, both outside quotes and without an open
/// run, give the same tokens behind their first.
proof fn closed_tips_agree(a: Lexer, b: Lexer, s: Seq<char>)
    requires
        a.tokens.len() == 1,
        b.tokens.len() == 1,
        a.no_open_run(),
        b.no_open_run(),
    ensures
        a.feed_all(s).tokens.len() >= 1,
        a.feed_all(s).tokens.len() == b.feed_all(s).tokens.len(),
        a.feed_all(s).tokens.skip(1) == b.feed_all(s).tokens.skip(1),
        a.feed_all(s).in_string == b.feed_all(s).in_string,
        a.feed_all(s).tokens.len() == 1 ==> !a.feed_all(s).in_string,
        a.feed_all(s).tokens[0] == a.tokens[0],
        b.feed_all(s).tokens[0] == b.tokens[0],
    decreases s.len(),
{
    if s.len() == 0 {
        assert(a.tokens.skip(1) =~= b.tokens.skip(1));
    } else {
        let c = s.last();
        let x = a.feed_all(s.drop_last());
        let y = b.feed_all(s.drop_last());
        closed_tips_agree(a, b, s.drop_last());
        assert forall|i: int| 1 <= i < x.tokens.len() implies x.tokens[i] == y.tokens[i] by {
            assert(x.tokens[i] == x.tokens.skip(1)[i - 1]);
            assert(y.tokens[i] == y.tokens.skip(1)[i - 1]);
        }
        assert(x.emit(c) == y.emit(c));
        assert(x.read(c).tokens.skip(1) =~= y.read(c).tokens.skip(1));
        assert(x.feed(c).tokens.skip(1) =~= y.feed(c).tokens.skip(1));
    }
}

/// Where no run is open, the scan goes on as if it started afresh: the
/// tokens that are there stay, and behind them come the tokens that what
/// follows gives when it is scanned on its own.
pub proof fn closed_state_restarts(st: Lexer, s: Seq<char>)
    requires
        st.tokens.len() > 0,
        st.no_open_run(),
    ensures
        st.feed_all(s) == st.followed_by(s),
{
    let part = st.tip().feed_all(s);
    let rest = Lexer::init().feed_all(s);
    scan_is_local(st, s);
    closed_tips_agree(st.tip(), Lexer::init(), s);
    assert(part.tokens =~= seq![st.tokens.last()] + rest.tokens.skip(1));
    assert(st.feed_all(s).tokens =~= st.tokens + rest.tokens.skip(1));
}

/// Outside quotes, a symbol or a quote closes whatever run is open: from
/// there the scan goes on as if it started afresh.
pub proof fn break_restarts(st: Lexer, tail: Seq<char>)
    requires
        st.tokens.len() > 0,
        !st.in_string,
        tail.len() > 0 ==> is_symbol(tail[0]) || tail[0] == '"',
    ensures
        st.feed_all(tail) == st.followed_by(tail),
{
    if tail.len() == 0 {
        assert(st.followed_by(tail).tokens =~= st.tokens);
    } else {
        let c = tail[0];
        let rest = tail.skip(1);
        let here = st.feed(c);
        let there = Lexer::init().feed(c);
        assert(tail =~= seq![c] + rest);
        feed_all_first(st, c, rest);
        feed_all_first(Lexer::init(), c, rest);
        scan_is_local(here, rest);
        scan_is_local(there, rest);
        assert(here.tip() == there.tip());
        assert(here.tokens.drop_last() =~= st.tokens);
        assert(there.tokens.drop_last() =~= seq![TokenView::START]);
        assert(there.feed_all(rest).tokens.skip(1) =~= there.tip().feed_all(rest).tokens);
        assert(here.feed_all(rest).tokens =~= st.tokens + there.feed_all(rest).tokens.skip(1));
    }
}

/// Spaces outside quotes change nothing.
pub proof fn spaces_change_nothing(st: Lexer, gap: Seq<char>)
    requires
        !st.in_string,
        all_spaces(gap),
    ensures
        st.feed_all(gap) == st,
    decreases gap.len(),
{
    if gap.len() > 0 {
        spaces_change_nothing(st, gap.drop_last());
    }
}

/// A space outside quotes never shows in the result: it adds no token and
/// no text, so that the scan of an input is the scan of the same input
/// without that space.
pub proof fn space_outside_quotes_is_dropped(st: Lexer, before: Seq<char>, after: Seq<char>)
    requires
        !st.feed_all(before).in_string,
    ensures
        st.feed_all(before + seq![' ']) == st.feed_all(before),
        st.feed_all(before + seq![' '] + after) == st.feed_all(before + after),
{
    let mid = st.feed_all(before);
    feed_all_concat(st, before + seq![' '], after);
    feed_all_concat(st, before, seq![' ']);
    feed_all_one(mid, ' ');
    feed_all_concat(st, before, after);
}

/// A run of word characters that starts where no run is open becomes one
/// token that holds the run: an integer literal if the first character is a
/// digit, an identifier if not.
proof fn run_is_one_token(st: Lexer, run: Seq<char>)
    requires
        st.tokens.len() > 0,
        st.no_open_run(),
        run.len() > 0,
        all_words(run),
    ensures
        st.feed_all(run) == (Lexer {
            tokens: st.tokens.push(
                if numeric(run[0]) {
                    TokenView::Int(run)
                } else {
                    TokenView::Var(run)
                },
            ),
            in_string: false,
        }),
    decreases run.len(),
{
    let c = run.last();
    let head = run.drop_last();
    if head.len() == 0 {
        assert(run =~= seq![c]);
        feed_all_one(st, c);
    } else {
        run_is_one_token(st, head);
        let mid = st.feed_all(head);
        assert(head.push(c) =~= run);
        assert(mid.feed(c).tokens =~= st.tokens.push(mid.tokens.last().append(c)));
    }
}

/// Behind a run, spaces and then a symbol, a quote or the end of the input
/// close it: the scan goes on as if it started afresh.
proof fn run_then_break(st: Lexer, run: Seq<char>, gap: Seq<char>, tail: Seq<char>)
    requires
        st.tokens.len() > 0,
        st.no_open_run(),
        run.len() > 0,
        all_words(run),
        all_spaces(gap),
        tail.len() > 0 ==> is_symbol(tail[0]) || tail[0] == '"',
    ensures
        st.feed_all(run + gap + tail) == st.feed_all(run).followed_by(tail),
{
    let done = st.feed_all(run);
    run_is_one_token(st, run);
    feed_all_concat(st, run + gap, tail);
    feed_all_concat(st, run, gap);
    spaces_change_nothing(done, gap);
    break_restarts(done, tail);
}

/// A maximal run of word characters that starts with no digit, where no run
/// is open, gives exactly one identifier, whose text is the run: the result
/// is the tokens before it, the identifier, and the tokens of what follows.
/// The run is maximal on its right when, after any spaces, a symbol or a
/// quote follows or the input ends: a word character after spaces would
/// join the identifier.
pub proof fn identifier_is_one_token(
    st: Lexer,
    run: Seq<char>,
    gap: Seq<char>,
    tail: Seq<char>,
)
    requires
        st.tokens.len() > 0,
        st.no_open_run(),
        run.len() > 0,
        all_words(run),
        !numeric(run[0]),
        all_spaces(gap),
        tail.len() > 0 ==> is_symbol(tail[0]) || tail[0] == '"',
    ensures
        st.feed_all(run) == (Lexer {
            tokens: st.tokens.push(TokenView::Var(run)),
            in_string: false,
        }),
        st.feed_all(run + gap + tail) == (Lexer {
            tokens: st.tokens.push(TokenView::Var(run)),
            in_string: false,
        }).followed_by(tail),
{
    run_is_one_token(st, run);
    run_then_break(st, run, gap, tail);
}

/// A maximal run of word characters that starts with a digit, where no run
/// is open, gives exactly one integer literal, whose text is the whole run,
/// digits or not: the result is the tokens before it, the literal, and the
/// tokens of what follows. The run is maximal on its right as for an
/// identifier.
pub proof fn integer_is_one_token(st: Lexer, run: Seq<char>, gap: Seq<char>, tail: Seq<char>)
    requires
        st.tokens.len() > 0,
        st.no_open_run(),
        run.len() > 0,
        all_words(run),
        numeric(run[0]),
        all_spaces(gap),
        tail.len() > 0 ==> is_symbol(tail[0]) || tail[0] == '"',
    ensures
        st.feed_all(run) == (Lexer {
            tokens: st.tokens.push(TokenView::Int(run)),
            in_string: false,
        }),
        st.feed_all(run + gap + tail) == (Lexer {
            tokens: st.tokens.push(TokenView::Int(run)),
            in_string: false,
        }).followed_by(tail),
{
    run_is_one_token(st, run);
    run_then_break(st, run, gap, tail);
}

/// After an opening quote, characters that are neither quotes nor symbols
/// gather in one string token.
proof fn quoted_text_gathers(st: Lexer, body: Seq<char>)
    requires
        st.tokens.len() > 0,
        !st.in_string,
        quotable(body),
    ensures
        st.feed('"').feed_all(body) == (Lexer {
            tokens: st.tokens.push(TokenView::Str(body)),
            in_string: true,
        }),
    decreases body.len(),
{
    if body.len() == 0 {
        assert(body =~= Seq::<char>::empty());
    } else {
        let head = body.drop_last();
        let mid = st.feed('"').feed_all(head);
        quoted_text_gathers(st, head);
        assert(head.push(body.last()) =~= body);
        assert(mid.feed(body.last()).tokens =~= st.tokens.push(TokenView::Str(body)));
    }
}

/// A quoted region without symbols in it gives exactly one string token,
/// whose text is what stands between the quotes, and the quotes themselves
/// give nothing: the result is the tokens before it, the string, and the
/// tokens of what follows. The flag is set between the two quotes and clear
/// behind the second.
pub proof fn quoted_region_is_one_string(st: Lexer, body: Seq<char>, after: Seq<char>)
    requires
        st.tokens.len() > 0,
        !st.in_string,
        quotable(body),
    ensures
        st.feed_all(seq!['"'] + body) == (Lexer {
            tokens: st.tokens.push(TokenView::Str(body)),
            in_string: true,
        }),
        st.feed_all(seq!['"'] + body + seq!['"']) == (Lexer {
            tokens: st.tokens.push(TokenView::Str(body)),
            in_string: false,
        }),
        st.feed_all(seq!['"'] + body + seq!['"'] + after) == (Lexer {
            tokens: st.tokens.push(TokenView::Str(body)),
            in_string: false,
        }).followed_by(after),
{
    let filled = st.feed('"').feed_all(body);
    let closed = filled.feed('"');
    quoted_text_gathers(st, body);
    feed_all_concat(st, seq!['"'] + body + seq!['"'], after);
    feed_all_concat(st, seq!['"'] + body, seq!['"']);
    feed_all_first(st, '"', body);
    feed_all_one(filled, '"');
    assert(closed.tokens =~= st.tokens.push(TokenView::Str(body)));
    closed_state_restarts(closed, after);
}

/// As long as no symbol stands inside quotes, the flag is set exactly
/// between an opening quote and the quote that closes it: after a scan that
/// started outside quotes it says whether the number of quotes read is odd,
/// and while it is set the last token is the string that is being filled.
pub proof fn flag_follows_quotes(st: Lexer, s: Seq<char>)
    requires
        st.tokens.len() > 0,
        !st.in_string,
        symbols_outside_quotes(s),
    ensures
        st.feed_all(s).in_string == odd_quotes(s),
        st.feed_all(s).in_string ==> st.feed_all(s).tokens.last() is Str,
    decreases s.len(),
{
    if s.len() > 0 {
        let head = s.drop_last();
        assert forall|i: int| 0 <= i < head.len() && is_symbol(#[trigger] head[i]) implies !odd_quotes(
            head.take(i),
        ) by {
            assert(head[i] == s[i]);
            assert(head.take(i) =~= s.take(i));
        }
        flag_follows_quotes(st, head);
        earlier_tokens_stay(st, head);
        if is_symbol(s.last()) {
            assert(s[s.len() - 1] == s.last());
            assert(s.take(s.len() - 1) =~= head);
        }
    }
}

/// `+`, `=` and `;` each give their own token in every state, inside quotes
/// and behind an open run too, and nothing that follows changes the tokens
/// up to it. Outside quotes the result is the tokens before the symbol, its
/// token, and the tokens of what follows.
pub proof fn symbol_is_one_token(st: Lexer, c: char, after: Seq<char>)
    requires
        st.tokens.len() > 0,
        is_symbol(c),
    ensures
        st.feed(c) == (Lexer { tokens: st.tokens.push(symbol(c)), in_string: st.in_string }),
        st.feed_all(seq![c] + after).tokens.take(st.tokens.len() as int + 1) == st.tokens.push(
            symbol(c),
        ),
        !st.in_string ==> st.feed_all(seq![c] + after) == st.feed(c).followed_by(after),
{
    let next = st.feed(c);
    feed_all_first(st, c, after);
    settled_tokens_stay(next, after);
    if !st.in_string {
        closed_state_restarts(next, after);
    }
}

/// One character adds one token of the symbol `c` if it is `c`, and none
/// if it is anything else.
proof fn symbol_count_step(st: Lexer, d: char, c: char)
    requires
        st.tokens.len() > 0,
        is_symbol(c),
    ensures
        st.feed(d).tokens.to_multiset().count(symbol(c)) == st.tokens.to_multiset().count(
            symbol(c),
        ) + if d == c {
            1nat
        } else {
            0nat
        },
{
    broadcast use vstd::multiset::group_multiset_axioms;

    let read = st.read(d);
    if st.grows(d) {
        to_multiset_update(st.tokens, st.tokens.len() - 1, st.tokens.last().append(d));
    }
    assert(read.tokens.to_multiset().count(symbol(c)) == st.tokens.to_multiset().count(
        symbol(c),
    ));
    if !(st.emit(d) is IGNORE) {
        to_multiset_build(read.tokens, st.emit(d));
    }
}

/// The tokens `Add`, `Ass` and `EOL` come from `+`, `=` and `;` alone, one
/// for each occurrence: a scan adds as many tokens of a symbol as the input
/// holds characters of it.
pub proof fn symbols_are_counted(st: Lexer, s: Seq<char>, c: char)
    requires
        st.tokens.len() > 0,
        is_symbol(c),
    ensures
        st.feed_all(s).tokens.to_multiset().count(symbol(c)) == st.tokens.to_multiset().count(
            symbol(c),
        ) + s.to_multiset().count(c),
    decreases s.len(),
{
    broadcast use vstd::multiset::group_multiset_axioms;

    if s.len() == 0 {
        assert(s.to_multiset().count(c) == 0) by {
            to_multiset_len(s);
        }
    } else {
        symbols_are_counted(st, s.drop_last(), c);
        earlier_tokens_stay(st, s.drop_last());
        symbol_count_step(st.feed_all(s.drop_last()), s.last(), c);
        to_multiset_build(s.drop_last(), s.last());
        assert(s.drop_last().push(s.last()) =~= s);
    }
}

/// A step hands out `EOF` at the end of the input and nowhere else, and it
/// never hands out the sentinel.
pub proof fn step_tells_the_end(p: ParserView)
    ensures
        p.next_token() is EOF <==> p.at_end(),
        !(p.next_token() is START),
{
}

/// Once a step has handed out `EOF`, the input is exhausted, the step has
/// changed nothing, and every later step hands out `EOF` again and changes
/// nothing either.
pub proof fn end_is_final(p: ParserView)
    requires
        p.next_token() is EOF,
    ensures
        p.at_end(),
        p.after_next() == p,
        p.after_next().next_token() is EOF,
        p.after_parse() == p,
{
}

/// A scanner that has read nothing yet, driven to the end, holds the scan
/// of its whole input.
pub proof fn parse_scans_the_input(p: ParserView)
    requires
        p.pos == 0,
    ensures
        p.after_parse().lexer == p.lexer.feed_all(p.input),
        p.after_parse().at_end(),
{
    assert(p.rest() =~= p.input);
}

} // verus!
