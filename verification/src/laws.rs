//! Laws that hold across the components: what the shell makes of a line of
//! plain words, from the lexer to the text that is written.
use vstd::prelude::*;
use crate::builtins::{builtin_outcome, out_record, EnvironmentView};
use crate::lexer::{
    lemma_lex_chars_append, lex_char, lex_chars, quotes_after, tokens_of, LexState, QuoteState,
};
use crate::output::{deliveries, delivery_of, routed, touches, DeliveryView, SinkView};
use crate::redirect::{
    operator_free, redirect_from, redirect_of, redirected, OutputConfView, Redirected,
};
use crate::splitter::{is_pipe, lemma_single_stage_without_pipe, stage_args, stage_commands};
use crate::text::joined;

verus! {

/// A word that the lexer takes as it stands: it is not empty and holds no
/// quote, no backslash and no space.
pub open spec fn plain(word: Seq<char>) -> bool {
    &&& word.len() > 0
    &&& forall|i: int|
        0 <= i < word.len() ==> {
            let c = #[trigger] word[i];
            c != '\'' && c != '"' && c != '\\' && c != ' '
        }
}

/// A word that passes through the shell as an argument: a plain word that is
/// neither the pipe operator nor a redirection operator.
pub open spec fn shell_safe(word: Seq<char>) -> bool {
    plain(word) && !is_pipe(word) && redirect_of(word) is None
}

/// Every word is plain.
pub open spec fn all_plain(words: Seq<Seq<char>>) -> bool {
    forall|i: int| 0 <= i < words.len() ==> plain(#[trigger] words[i])
}

/// Every word is shell-safe.
pub open spec fn all_shell_safe(words: Seq<Seq<char>>) -> bool {
    forall|i: int| 0 <= i < words.len() ==> shell_safe(#[trigger] words[i])
}

/// Outside quotes and with no escape pending, the characters of a plain word
/// all go to the token being built.
pub proof fn lemma_lex_plain(st: LexState, word: Seq<char>, upto: int)
    requires
        st.quotes == QuoteState::start(),
        0 <= upto <= word.len(),
        forall|i: int|
            0 <= i < word.len() ==> {
                let c = #[trigger] word[i];
                c != '\'' && c != '"' && c != '\\' && c != ' '
            },
    ensures
        lex_chars(st, word.take(upto)) == (LexState {
            current: st.current + word.take(upto),
            ..st
        }),
    decreases upto,
{
    if upto == 0 {
        assert(st.current + word.take(0) =~= st.current);
    } else {
        lemma_lex_plain(st, word, upto - 1);
        assert(word.take(upto).drop_last() =~= word.take(upto - 1));
        let c = word[upto - 1];
        assert(word.take(upto).last() == c);
        assert((st.current + word.take(upto - 1)).push(c) =~= st.current + word.take(upto));
    }
}

/// The lexer gives back plain words that were joined by single spaces: after
/// the line, no quote is open, the last word is the token being built, and
/// the words before it are the tokens cut off.
pub proof fn lemma_lex_joined_words(words: Seq<Seq<char>>)
    requires
        words.len() > 0,
        all_plain(words),
    ensures
        lex_chars(LexState::start(), joined(words, seq![' '])) == (LexState {
            quotes: QuoteState::start(),
            current: words.last(),
            tokens: words.drop_last(),
        }),
    decreases words.len(),
{
    let last = words.last();
    assert(plain(last));
    assert(last.take(last.len() as int) =~= last);
    if words.len() == 1 {
        lemma_lex_plain(LexState::start(), last, last.len() as int);
        assert(Seq::<char>::empty() + last =~= last);
        assert(words.drop_last() =~= Seq::<Seq<char>>::empty());
    } else {
        let front = words.drop_last();
        assert forall|i: int| 0 <= i < front.len() implies plain(#[trigger] front[i]) by {
            assert(front[i] == words[i]);
        }
        lemma_lex_joined_words(front);
        let text = joined(front, seq![' ']);
        let st = lex_chars(LexState::start(), text);
        lemma_lex_chars_append(LexState::start(), text, seq![' ']);
        assert(seq![' '].drop_last() =~= Seq::<char>::empty());
        assert(lex_chars(st, Seq::<char>::empty()) == st);
        assert(lex_chars(st, seq![' ']) == lex_char(st, ' '));
        let cut = lex_char(st, ' ');
        assert(plain(front.last()));
        assert(cut.tokens =~= front);
        lemma_lex_chars_append(LexState::start(), text + seq![' '], last);
        lemma_lex_plain(cut, last, last.len() as int);
        assert(Seq::<char>::empty() + last =~= last);
    }
}

/// Words that are plain and joined by single spaces come back from the lexer
/// as they went in, with every quote closed.
pub proof fn lemma_tokens_of_joined_words(words: Seq<Seq<char>>)
    requires
        all_plain(words),
    ensures
        tokens_of(joined(words, seq![' '])) == words,
        !quotes_after(joined(words, seq![' '])).unbalanced(),
{
    if words.len() == 0 {
        assert(tokens_of(joined(words, seq![' '])) =~= words);
    } else {
        lemma_lex_joined_words(words);
        assert(plain(words.last()));
        assert(words.drop_last().push(words.last()) =~= words);
    }
}

/// Where no token from `i` on is a redirection operator, the redirection
/// parser keeps them all as arguments and leaves the plan alone.
pub proof fn lemma_redirect_without_operator(tokens: Seq<Seq<char>>, i: int, acc: Redirected)
    requires
        0 <= i <= tokens.len(),
        operator_free(tokens),
    ensures
        redirect_from(tokens, i, acc) == (Redirected { args: acc.args + tokens.skip(i), ..acc }),
    decreases tokens.len() - i,
{
    if i < tokens.len() {
        let next = Redirected { args: acc.args.push(tokens[i]), ..acc };
        lemma_redirect_without_operator(tokens, i + 1, next);
        assert(acc.args.push(tokens[i]) + tokens.skip(i + 1) =~= acc.args + tokens.skip(i));
    } else {
        assert(acc.args + tokens.skip(i) =~= acc.args);
    }
}

/// The round trip of `echo`. Let `args` be shell-safe words, and let the line
/// be `echo` and the words, joined by single spaces. Then:
///
/// * the lexer cuts the line into `echo` and the words, with no quote open;
/// * the splitter makes one stage of them, the command `echo` with the words
///   as its arguments;
/// * the redirection parser keeps all the words and redirects nothing;
/// * the built-in reports one record, the words joined by single spaces;
/// * the router writes that text and a newline to the shell's standard
///   output, and nothing else.
pub proof fn lemma_echo_round_trip(
    args: Seq<Seq<char>>,
    builtin: Seq<Seq<char>>,
    entries: Seq<Seq<char>>,
    env: EnvironmentView,
)
    requires
        all_shell_safe(args),
    ensures
        ({
            let line = joined(seq!["echo"@] + args, seq![' ']);
            let tokens = tokens_of(line);
            let outcome = builtin_outcome("echo"@, redirected(args).args, builtin, entries, env);
            &&& !quotes_after(line).unbalanced()
            &&& tokens == seq!["echo"@] + args
            &&& stage_commands(tokens) == seq!["echo"@]
            &&& stage_args(tokens) == seq![args]
            &&& redirected(args) == (Redirected {
                args,
                plan: OutputConfView::inherit(),
                dangling: false,
            })
            &&& outcome.outputs == seq![Some(out_record(joined(args, seq![' '])))]
            &&& outcome.request is None
            &&& routed(outcome.outputs, redirected(args).plan) == seq![
                DeliveryView {
                    sink: SinkView::Stdout,
                    text: joined(args, seq![' ']).push('\n'),
                },
            ]
        }),
{
    reveal_strlit("echo");
    reveal_strlit("exit");
    let name = "echo"@;
    assert(name =~= seq!['e', 'c', 'h', 'o']);
    assert(name != "exit"@) by {
        assert("exit"@[1] == 'x');
        assert(name[1] == 'c');
    }
    let words = seq![name] + args;
    assert forall|i: int| 0 <= i < words.len() implies plain(#[trigger] words[i]) by {
        if i > 0 {
            assert(words[i] == args[i - 1]);
            assert(shell_safe(args[i - 1]));
        }
    }
    lemma_tokens_of_joined_words(words);
    assert forall|i: int| 0 <= i < words.len() implies !is_pipe(#[trigger] words[i]) by {
        if i > 0 {
            assert(words[i] == args[i - 1]);
            assert(shell_safe(args[i - 1]));
        }
    }
    lemma_single_stage_without_pipe(words);
    assert(words.skip(1) =~= args);
    assert forall|i: int| 0 <= i < args.len() implies redirect_of(#[trigger] args[i]) is None by {
        assert(shell_safe(args[i]));
    }
    lemma_redirect_without_operator(args, 0, Redirected::start());
    assert(args.skip(0) =~= args);
    assert(Seq::<Seq<char>>::empty() + args =~= args);
    let plan = OutputConfView::inherit();
    let record = out_record(joined(args, seq![' ']));
    let outputs = seq![Some(record)];
    assert(outputs.drop_last() =~= Seq::empty());
    assert(deliveries(outputs.drop_last(), plan) =~= Seq::empty());
    assert(deliveries(outputs, plan) =~= seq![delivery_of(record, plan)]);
    assert(touches(plan) =~= Seq::empty());
    assert(routed(outputs, plan) =~= seq![delivery_of(record, plan)]);
}

} // verus!
