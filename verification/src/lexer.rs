//! The lexer: one pass over the characters of a line, driven by a small
//! quote-and-escape state machine, that cuts the line into tokens.
use vstd::prelude::*;
use crate::text::all_nonempty;

verus! {

/// Where the lexer stands with respect to quoting.
#[derive(Clone, Copy, Debug, PartialEq, Eq, Structural)]
pub struct QuoteState {
    /// A `'` has been opened and not yet closed.
    pub single_open: bool,
    /// A `"` has been opened and not yet closed.
    pub double_open: bool,
    /// The previous character was a backslash that still acts on the next one.
    pub escape_pending: bool,
}

impl QuoteState {
    /// The state before any character: no quote open, no escape pending.
    pub open spec fn start() -> QuoteState {
        QuoteState { single_open: false, double_open: false, escape_pending: false }
    }

    /// A quote is open: the line read so far is not a complete logical line.
    pub open spec fn unbalanced(self) -> bool {
        self.single_open || self.double_open
    }

    /// Whether a quote is open.
    pub fn is_unbalanced(&self) -> (r: bool)
        ensures
            r == self.unbalanced(),
    {
        self.single_open || self.double_open
    }
}

/// The whole state of a lexing pass, as mathematics: the quote state, the
/// token being built, and the tokens already cut off.
pub struct LexState {
    pub quotes: QuoteState,
    pub current: Seq<char>,
    pub tokens: Seq<Seq<char>>,
}

impl LexState {
    /// The state before any character.
    pub open spec fn start() -> LexState {
        LexState { quotes: QuoteState::start(), current: Seq::empty(), tokens: Seq::empty() }
    }

    /// The state with `c` appended to the token being built and the escape
    /// cleared.
    pub open spec fn literal(self, c: char) -> LexState {
        LexState {
            quotes: QuoteState { escape_pending: false, ..self.quotes },
            current: self.current.push(c),
            tokens: self.tokens,
        }
    }

    /// The state with the last character of the token being built taken
    /// away again, if there is one.
    pub open spec fn unpush(self) -> LexState {
        if self.current.len() > 0 {
            LexState { current: self.current.drop_last(), ..self }
        } else {
            self
        }
    }

    /// The tokens of the pass once the input has ended: those cut off so far,
    /// and the one being built if it is not empty.
    pub open spec fn finish(self) -> Seq<Seq<char>> {
        if self.current.len() > 0 {
            self.tokens.push(self.current)
        } else {
            self.tokens
        }
    }
}

/// One transition of the state machine: the state after reading `c`.
///
/// * `'` toggles the single quote, unless a double quote is open or an escape
///   is pending: then it is an ordinary character.
/// * `"` toggles the double quote, unless a single quote is open or an escape
///   is pending: then it is an ordinary character, and inside double quotes it
///   replaces the backslash that escaped it.
/// * `\` is an ordinary character inside single quotes. Inside double quotes a
///   first backslash is kept and sets the escape, a second one only clears it.
///   Outside quotes it is dropped and sets the escape.
/// * A space outside quotes and not escaped ends the token being built.
/// * Any other character is ordinary.
///
/// An ordinary character is appended to the token being built and clears the
/// escape.
pub open spec fn lex_char(st: LexState, c: char) -> LexState {
    let q = st.quotes;
    if c == '\'' {
        if !q.double_open && !q.escape_pending {
            LexState { quotes: QuoteState { single_open: !q.single_open, ..q }, ..st }
        } else {
            st.literal(c)
        }
    } else if c == '"' {
        if !q.single_open && !q.escape_pending {
            LexState { quotes: QuoteState { double_open: !q.double_open, ..q }, ..st }
        } else if q.escape_pending && q.double_open {
            st.unpush().literal(c)
        } else {
            st.literal(c)
        }
    } else if c == '\\' {
        if q.single_open {
            LexState { current: st.current.push(c), ..st }
        } else if q.double_open && q.escape_pending {
            LexState { quotes: QuoteState { escape_pending: false, ..q }, ..st }
        } else if q.double_open {
            LexState {
                quotes: QuoteState { escape_pending: true, ..q },
                current: st.current.push(c),
                tokens: st.tokens,
            }
        } else {
            LexState { quotes: QuoteState { escape_pending: true, ..q }, ..st }
        }
    } else if c == ' ' {
        if !q.single_open && !q.double_open && !q.escape_pending {
            LexState { quotes: q, current: Seq::empty(), tokens: st.finish() }
        } else {
            st.literal(c)
        }
    } else {
        st.literal(c)
    }
}

/// The state after reading all of `cs`, one character after the other.
pub open spec fn lex_chars(st: LexState, cs: Seq<char>) -> LexState
    decreases cs.len(),
{
    if cs.len() == 0 {
        st
    } else {
        lex_char(lex_chars(st, cs.drop_last()), cs.last())
    }
}

/// The tokens of a whole line.
pub open spec fn tokens_of(line: Seq<char>) -> Seq<Seq<char>> {
    lex_chars(LexState::start(), line).finish()
}

/// The quote state in which a whole line ends.
pub open spec fn quotes_after(line: Seq<char>) -> QuoteState {
    lex_chars(LexState::start(), line).quotes
}

/// Reading `a` and then `b` is reading `a + b`.
pub proof fn lemma_lex_chars_append(st: LexState, a: Seq<char>, b: Seq<char>)
    ensures
        lex_chars(st, a + b) == lex_chars(lex_chars(st, a), b),
    decreases b.len(),
{
    if b.len() == 0 {
        assert(a + b =~= a);
    } else {
        assert((a + b).drop_last() =~= a + b.drop_last());
        assert((a + b).last() == b.last());
        lemma_lex_chars_append(st, a, b.drop_last());
    }
}

/// One character keeps the tokens cut off so far free of empty tokens.
pub proof fn lemma_lex_char_nonempty(st: LexState, c: char)
    requires
        all_nonempty(st.tokens),
    ensures
        all_nonempty(lex_char(st, c).tokens),
{
}

/// Reading characters keeps the tokens cut off so far free of empty tokens.
pub proof fn lemma_lex_chars_nonempty(st: LexState, cs: Seq<char>)
    requires
        all_nonempty(st.tokens),
    ensures
        all_nonempty(lex_chars(st, cs).tokens),
    decreases cs.len(),
{
    if cs.len() > 0 {
        lemma_lex_chars_nonempty(st, cs.drop_last());
        lemma_lex_char_nonempty(lex_chars(st, cs.drop_last()), cs.last());
    }
}

/// The lexer hands out no empty token.
pub proof fn lemma_tokens_nonempty(line: Seq<char>)
    ensures
        all_nonempty(tokens_of(line)),
{
    lemma_lex_chars_nonempty(LexState::start(), line);
}

/// A lexing pass in progress.
pub struct Lexer {
    quotes: QuoteState,
    current: String,
    tokens: Vec<String>,
}

impl View for Lexer {
    type V = LexState;

    closed spec fn view(&self) -> LexState {
        LexState {
            quotes: self.quotes,
            current: self.current@,
            tokens: self.tokens.deep_view(),
        }
    }
}

impl Lexer {
    /// A pass that has read nothing yet.
    pub fn new() -> (lexer: Lexer)
        ensures
            lexer@ == LexState::start(),
    {
        let lexer = Lexer {
            quotes: QuoteState { single_open: false, double_open: false, escape_pending: false },
            current: String::new(),
            tokens: Vec::new(),
        };
        assert(lexer.tokens.deep_view() =~= Seq::<Seq<char>>::empty());
        lexer
    }

    /// The quote state reached so far.
    pub fn quotes(&self) -> (q: QuoteState)
        ensures
            q == self@.quotes,
    {
        self.quotes
    }

    fn literal(&mut self, c: char)
        ensures
            final(self)@ == old(self)@.literal(c),
    {
        self.current.push(c);
        self.quotes.escape_pending = false;
    }

    fn cut(&mut self)
        ensures
            final(self)@ == (LexState {
                quotes: old(self)@.quotes,
                current: Seq::empty(),
                tokens: old(self)@.finish(),
            }),
    {
        if !self.current.as_str().is_empty() {
            let ghost before = self.tokens.deep_view();
            let token = self.current.clone();
            self.tokens.push(token);
            self.current = String::new();
            assert(self.tokens.deep_view() =~= before.push(token@));
        }
        assert(self.current@ =~= Seq::<char>::empty());
    }

    /// Reads one character.
    pub fn push_char(&mut self, c: char)
        ensures
            final(self)@ == lex_char(old(self)@, c),
    {
        let q = self.quotes;
        if c == '\'' {
            if !q.double_open && !q.escape_pending {
                self.quotes.single_open = !q.single_open;
            } else {
                self.literal(c);
            }
        } else if c == '"' {
            if !q.single_open && !q.escape_pending {
                self.quotes.double_open = !q.double_open;
            } else {
                if q.escape_pending && q.double_open {
                    self.current.pop();
                }
                self.literal(c);
            }
        } else if c == '\\' {
            if q.single_open {
                self.current.push(c);
            } else if q.double_open && q.escape_pending {
                self.quotes.escape_pending = false;
            } else if q.double_open {
                self.current.push(c);
                self.quotes.escape_pending = true;
            } else {
                self.quotes.escape_pending = true;
            }
        } else if c == ' ' {
            if !q.single_open && !q.double_open && !q.escape_pending {
                self.cut();
            } else {
                self.literal(c);
            }
        } else {
            self.literal(c);
        }
    }

    /// Reads every character of `s`, in order.
    pub fn push_str(&mut self, s: &str)
        ensures
            final(self)@ == lex_chars(old(self)@, s@),
    {
        for c in it: s.chars()
            invariant
                it.seq() == s@,
                self@ == lex_chars(old(self)@, s@.take(it.index() as int)),
        {
            proof {
                let i = it.index() as int;
                assert(s@.take(i + 1).drop_last() =~= s@.take(i));
                assert(s@.take(i + 1).last() == s@[i]);
            }
            self.push_char(c);
        }
        assert(s@.take(s@.len() as int) =~= s@);
    }

    /// Ends the pass and hands out its tokens.
    pub fn finish(self) -> (tokens: Vec<String>)
        ensures
            tokens.deep_view() == self@.finish(),
    {
        let mut lexer = self;
        lexer.cut();
        lexer.tokens
    }
}

/// Cuts a whole line into tokens and reports the quote state it ends in.
pub fn tokenize(line: &str) -> (r: (Vec<String>, QuoteState))
    ensures
        r.0.deep_view() == tokens_of(line@),
        r.1 == quotes_after(line@),
        all_nonempty(r.0.deep_view()),
{
    proof {
        lemma_tokens_nonempty(line@);
    }
    let mut lexer = Lexer::new();
    lexer.push_str(line);
    let quotes = lexer.quotes();
    (lexer.finish(), quotes)
}

} // verus!
