//! The line reader: it takes physical lines as the terminal delivers them and
//! hands out logical lines, cut into tokens. A logical line spans several
//! physical lines when a quote is left open at the end of one.
use vstd::prelude::*;
use rustyline::history::DefaultHistory;
use crate::history::{history_add, offered};
use crate::lexer::{
    lemma_lex_chars_append, lex_chars, quotes_after, tokens_of, LexState, Lexer,
};
use crate::text::joined;

verus! {

/// What a prompted read of the terminal came back with.
#[derive(Debug, PartialEq, Eq)]
pub enum ReadEvent {
    /// One physical line, without its line end.
    Line(String),
    /// The input has ended.
    Eof,
    /// The user interrupted the read.
    Interrupted,
    /// The read failed for any other reason.
    Failed,
}

/// What the reader makes of an event.
#[derive(Debug, PartialEq, Eq)]
pub enum ReadStep {
    /// A quote is still open: prompt for a continuation line.
    More,
    /// A logical line is complete; these are its tokens. There are none after
    /// an interrupt or a failed read.
    Complete(Vec<String>),
    /// The input has ended. The logical line is empty and none will follow.
    Closed,
}

/// The logical line in progress, as mathematics.
pub struct Pending {
    /// The physical lines read for it so far, joined by newlines.
    pub buffer: Seq<char>,
    /// At least one physical line was read and left a quote open.
    pub continuing: bool,
}

impl Pending {
    /// No logical line is in progress.
    pub open spec fn idle() -> Pending {
        Pending { buffer: Seq::empty(), continuing: false }
    }

    /// The buffer once `line` has been added: on a continuation the line
    /// follows a newline, otherwise it starts the buffer.
    pub open spec fn extended(self, line: Seq<char>) -> Seq<char> {
        if self.continuing {
            self.buffer.push('\n') + line
        } else {
            line
        }
    }

    /// The state after one more physical line: idle again if the buffer now
    /// ends with every quote closed, otherwise continuing with the longer
    /// buffer.
    pub open spec fn after_line(self, line: Seq<char>) -> Pending {
        let buffer = self.extended(line);
        if quotes_after(buffer).unbalanced() {
            Pending { buffer, continuing: true }
        } else {
            Pending::idle()
        }
    }

    /// The tokens that one more physical line completes, if it completes a
    /// logical line: those of the lexer run over the whole buffer.
    pub open spec fn completed_by(self, line: Seq<char>) -> Option<Seq<Seq<char>>> {
        let buffer = self.extended(line);
        if quotes_after(buffer).unbalanced() {
            None
        } else {
            Some(tokens_of(buffer))
        }
    }
}

/// The reader's state between two reads.
pub struct LineReader {
    lexer: Lexer,
    continuing: bool,
    buffer: Ghost<Seq<char>>,
}

impl View for LineReader {
    type V = Pending;

    closed spec fn view(&self) -> Pending {
        Pending { buffer: self.buffer@, continuing: self.continuing }
    }
}

impl LineReader {
    /// The lexer has read exactly the buffer, and an idle reader has read
    /// nothing.
    #[verifier::type_invariant]
    spec fn inv(&self) -> bool {
        &&& self.lexer@ == lex_chars(LexState::start(), self.buffer@)
        &&& !self.continuing ==> self.buffer@ == Seq::<char>::empty()
    }

    /// A reader with no logical line in progress.
    pub fn new() -> (reader: LineReader)
        ensures
            reader@ == Pending::idle(),
    {
        LineReader { lexer: Lexer::new(), continuing: false, buffer: Ghost(Seq::empty()) }
    }

    /// The prompt for the next read: `"$ "` for the first physical line of a
    /// logical line, `"> "` for a continuation.
    pub fn prompt(&self) -> (p: &'static str)
        ensures
            p@ == (if self@.continuing { "> "@ } else { "$ "@ }),
    {
        if self.continuing {
            "> "
        } else {
            "$ "
        }
    }

    fn take_line(&mut self, line: &str) -> (step: ReadStep)
        ensures
            final(self)@ == old(self)@.after_line(line@),
            match old(self)@.completed_by(line@) {
                Some(tokens) => step matches ReadStep::Complete(t) && t.deep_view() == tokens,
                None => step is More,
            },
    {
        let mut taken = LineReader::new();
        std::mem::swap(self, &mut taken);
        proof {
            use_type_invariant(&taken);
        }
        let LineReader { lexer, continuing, buffer } = taken;
        let mut lexer = lexer;
        let ghost before = buffer@;
        let ghost extended = old(self)@.extended(line@);
        if continuing {
            lexer.push_char('\n');
            proof {
                assert(before.push('\n').drop_last() =~= before);
            }
        }
        lexer.push_str(line);
        proof {
            if continuing {
                lemma_lex_chars_append(LexState::start(), before.push('\n'), line@);
            } else {
                assert(before + line@ =~= line@);
                lemma_lex_chars_append(LexState::start(), before, line@);
            }
        }
        if lexer.quotes().is_unbalanced() {
            *self = LineReader { lexer, continuing: true, buffer: Ghost(extended) };
            ReadStep::More
        } else {
            ReadStep::Complete(lexer.finish())
        }
    }

    fn reset(&mut self)
        ensures
            final(self)@ == Pending::idle(),
    {
        *self = LineReader::new();
    }
}

/// Takes one event of the terminal into the reader and says what follows.
///
/// A physical line that is not empty is first offered to the history store.
/// The line then extends the buffer of the logical line in progress. While
/// the buffer ends inside a quote the reader asks for more; once it ends with
/// every quote closed, the logical line is complete and its tokens are those
/// of the lexer run over the whole buffer, physical lines joined by newlines.
/// The end of input, an interrupt and a failed read each discard the line in
/// progress and leave the history alone.
pub fn input(reader: &mut LineReader, history: &mut DefaultHistory, event: ReadEvent) -> (step:
    ReadStep)
    ensures
        match event {
            ReadEvent::Line(line) => {
                &&& final(reader)@ == old(reader)@.after_line(line@)
                &&& match old(reader)@.completed_by(line@) {
                    Some(tokens) => step matches ReadStep::Complete(t) && t.deep_view() == tokens,
                    None => step is More,
                }
                &&& if line@.len() == 0 {
                    *final(history) == *old(history)
                } else {
                    offered(*old(history), *final(history), line@)
                }
            },
            ReadEvent::Eof => {
                &&& final(reader)@ == Pending::idle()
                &&& step is Closed
                &&& *final(history) == *old(history)
            },
            ReadEvent::Interrupted | ReadEvent::Failed => {
                &&& final(reader)@ == Pending::idle()
                &&& step matches ReadStep::Complete(t)
                &&& t@.len() == 0
                &&& *final(history) == *old(history)
            },
        },
{
    match event {
        ReadEvent::Line(line) => {
            if !line.as_str().is_empty() {
                history_add(history, line.as_str());
            }
            reader.take_line(line.as_str())
        },
        ReadEvent::Eof => {
            reader.reset();
            ReadStep::Closed
        },
        ReadEvent::Interrupted | ReadEvent::Failed => {
            reader.reset();
            ReadStep::Complete(Vec::new())
        },
    }
}

/// Physical lines joined into one text, a newline between each two.
pub open spec fn join_lines(lines: Seq<Seq<char>>) -> Seq<char> {
    joined(lines, seq!['\n'])
}

/// The state of a reader that started idle and was given `lines`, one
/// physical line per read.
pub open spec fn after_lines(lines: Seq<Seq<char>>) -> Pending
    decreases lines.len(),
{
    if lines.len() == 0 {
        Pending::idle()
    } else {
        after_lines(lines.drop_last()).after_line(lines.last())
    }
}

/// Every non-empty prefix of `lines`, joined, ends inside a quote.
pub open spec fn all_left_open(lines: Seq<Seq<char>>) -> bool {
    forall|k: int| 0 < k <= lines.len() ==> (#[trigger] quotes_after(join_lines(lines.take(k)))).unbalanced()
}

/// While every physical line leaves a quote open, the reader keeps asking for
/// more and its buffer is the lines read so far, joined by newlines.
pub proof fn lemma_reader_accumulates(lines: Seq<Seq<char>>)
    requires
        lines.len() > 0,
        all_left_open(lines),
    ensures
        after_lines(lines) == (Pending { buffer: join_lines(lines), continuing: true }),
        after_lines(lines.drop_last()).completed_by(lines.last()) is None,
    decreases lines.len(),
{
    let head = lines.drop_last();
    assert(lines.take(lines.len() as int) =~= lines);
    if head.len() > 0 {
        assert forall|k: int| 0 < k <= head.len() implies (#[trigger] quotes_after(
            join_lines(head.take(k)),
        )).unbalanced() by {
            assert(head.take(k) =~= lines.take(k));
        }
        lemma_reader_accumulates(head);
        assert(join_lines(head).push('\n') =~= join_lines(head) + seq!['\n']);
    }
}

/// The reader agrees with the lexer. Let a logical line be typed as the
/// physical lines `lines`, every one but the last leaving a quote open and the
/// last closing all. A reader that starts idle asks for more after each line
/// but the last, and on the last it completes the logical line, goes back to
/// idle, and hands out exactly the tokens of the lexer run once over the lines
/// joined by newlines.
pub proof fn lemma_reader_agrees_with_lexer(lines: Seq<Seq<char>>)
    requires
        lines.len() > 0,
        all_left_open(lines.drop_last()),
        !quotes_after(join_lines(lines)).unbalanced(),
    ensures
        forall|k: int|
            0 < k < lines.len() ==> (#[trigger] after_lines(lines.take(k - 1))).completed_by(
                lines[k - 1],
            ) is None,
        after_lines(lines.drop_last()).completed_by(lines.last()) == Some(
            tokens_of(join_lines(lines)),
        ),
        after_lines(lines) == Pending::idle(),
{
    let head = lines.drop_last();
    if head.len() > 0 {
        lemma_reader_accumulates(head);
        assert(join_lines(head).push('\n') =~= join_lines(head) + seq!['\n']);
    }
    assert forall|k: int| 0 < k < lines.len() implies (#[trigger] after_lines(
        lines.take(k - 1),
    )).completed_by(lines[k - 1]) is None by {
        let part = lines.take(k);
        assert(part.drop_last() =~= lines.take(k - 1));
        assert(part.last() == lines[k - 1]);
        assert forall|j: int| 0 < j <= part.len() implies (#[trigger] quotes_after(
            join_lines(part.take(j)),
        )).unbalanced() by {
            assert(part.take(j) =~= head.take(j));
        }
        lemma_reader_accumulates(part);
    }
}

/// The physical lines make up one complete logical line: there is at least
/// one, every one but the last leaves a quote open, and the last closes all.
pub open spec fn is_logical_line(lines: Seq<Seq<char>>) -> bool {
    &&& lines.len() > 0
    &&& all_left_open(lines.drop_last())
    &&& !quotes_after(join_lines(lines)).unbalanced()
}

/// The token sequences that a reader hands out, in order, when it starts
/// idle and is given `lines`, one physical line per read.
pub open spec fn handed_out(lines: Seq<Seq<char>>) -> Seq<Seq<Seq<char>>>
    decreases lines.len(),
{
    if lines.len() == 0 {
        Seq::empty()
    } else {
        let before = handed_out(lines.drop_last());
        match after_lines(lines.drop_last()).completed_by(lines.last()) {
            Some(tokens) => before.push(tokens),
            None => before,
        }
    }
}

/// The physical lines of several logical lines, one logical line after the
/// other.
pub open spec fn physical_lines(logical: Seq<Seq<Seq<char>>>) -> Seq<Seq<char>>
    decreases logical.len(),
{
    if logical.len() == 0 {
        Seq::empty()
    } else {
        physical_lines(logical.drop_last()) + logical.last()
    }
}

/// A reader that is idle after `first` goes on with `then` as if it had just
/// started.
pub proof fn lemma_reader_starts_over(first: Seq<Seq<char>>, then: Seq<Seq<char>>)
    requires
        after_lines(first) == Pending::idle(),
    ensures
        after_lines(first + then) == after_lines(then),
        handed_out(first + then) == handed_out(first) + handed_out(then),
    decreases then.len(),
{
    if then.len() == 0 {
        assert(first + then =~= first);
        assert(handed_out(first) + handed_out(then) =~= handed_out(first));
    } else {
        lemma_reader_starts_over(first, then.drop_last());
        assert((first + then).drop_last() =~= first + then.drop_last());
        assert((first + then).last() == then.last());
        let before = handed_out(then.drop_last());
        match after_lines(then.drop_last()).completed_by(then.last()) {
            Some(tokens) => {
                assert(handed_out(first) + before.push(tokens) =~= (handed_out(first)
                    + before).push(tokens));
            },
            None => {},
        }
    }
}

/// While every physical line leaves a quote open, the reader hands out
/// nothing.
pub proof fn lemma_reader_withholds(lines: Seq<Seq<char>>)
    requires
        all_left_open(lines),
    ensures
        handed_out(lines) == Seq::<Seq<Seq<char>>>::empty(),
    decreases lines.len(),
{
    if lines.len() > 0 {
        let head = lines.drop_last();
        assert forall|k: int| 0 < k <= head.len() implies (#[trigger] quotes_after(
            join_lines(head.take(k)),
        )).unbalanced() by {
            assert(head.take(k) =~= lines.take(k));
        }
        lemma_reader_withholds(head);
        lemma_reader_accumulates(lines);
    }
}

/// The reader and the lexer agree on every input. Let any number of complete
/// logical lines be typed, each as one or more physical lines, and let the
/// physical lines be given to a reader that starts idle, in order. Then the
/// reader hands out one token sequence for each logical line, in order, and
/// each is what the lexer makes of the physical lines of that logical line
/// joined by newlines. At the end the reader is idle.
pub proof fn lemma_reader_agrees_on_all_lines(logical: Seq<Seq<Seq<char>>>)
    requires
        forall|i: int| 0 <= i < logical.len() ==> is_logical_line(#[trigger] logical[i]),
    ensures
        handed_out(physical_lines(logical)) == Seq::new(
            logical.len(),
            |i: int| tokens_of(join_lines(logical[i])),
        ),
        after_lines(physical_lines(logical)) == Pending::idle(),
    decreases logical.len(),
{
    let expected = Seq::new(logical.len(), |i: int| tokens_of(join_lines(logical[i])));
    if logical.len() == 0 {
        assert(handed_out(physical_lines(logical)) =~= expected);
    } else {
        let front = logical.drop_last();
        let last = logical.last();
        assert forall|i: int| 0 <= i < front.len() implies is_logical_line(
            #[trigger] front[i],
        ) by {
            assert(front[i] == logical[i]);
        }
        lemma_reader_agrees_on_all_lines(front);
        assert(is_logical_line(last));
        lemma_reader_starts_over(physical_lines(front), last);
        lemma_reader_agrees_with_lexer(last);
        lemma_reader_withholds(last.drop_last());
        assert(handed_out(last) =~= seq![tokens_of(join_lines(last))]);
        assert(handed_out(physical_lines(logical)) =~= expected) by {
            let got = handed_out(physical_lines(front)) + seq![tokens_of(join_lines(last))];
            assert(got.len() == expected.len());
            assert forall|i: int| 0 <= i < expected.len() implies got[i] == expected[i] by {
                if i < front.len() {
                    assert(front[i] == logical[i]);
                }
            }
        }
    }
}

} // verus!
