//! The redirection parser: it takes the redirection operators and their
//! targets out of the arguments of a stage and makes the stage's I/O plan.
use vstd::prelude::*;
use crate::output::{err, OutputMsg, OutputMsgType, OutputMsgView};
use crate::text::{all_nonempty, same_text};

verus! {

/// What becomes of a stream of a command.
#[derive(Clone, Copy, Debug, PartialEq, Eq, Structural)]
pub enum OutputMode {
    /// The stream is the shell's own.
    Default,
    /// The stream goes to a file that is emptied first.
    File,
    /// The stream goes to the end of a file.
    FileAppend,
}

/// The I/O plan of a stage: for each of the two output streams, a mode and the
/// path of the target file. A stream in mode `Default` has the empty path.
#[derive(Debug, PartialEq, Eq)]
pub struct OutputConf {
    pub std_out: String,
    pub std_out_mode: OutputMode,
    pub std_err: String,
    pub std_err_mode: OutputMode,
}

/// An I/O plan as mathematics.
pub struct OutputConfView {
    pub std_out: Seq<char>,
    pub std_out_mode: OutputMode,
    pub std_err: Seq<char>,
    pub std_err_mode: OutputMode,
}

impl DeepView for OutputConf {
    type V = OutputConfView;

    open spec fn deep_view(&self) -> OutputConfView {
        OutputConfView {
            std_out: self.std_out@,
            std_out_mode: self.std_out_mode,
            std_err: self.std_err@,
            std_err_mode: self.std_err_mode,
        }
    }
}

impl View for OutputConf {
    type V = OutputConfView;

    open spec fn view(&self) -> OutputConfView {
        self.deep_view()
    }
}

impl Clone for OutputConf {
    fn clone(&self) -> (copy: OutputConf)
        ensures
            copy@ == self@,
    {
        OutputConf {
            std_out: self.std_out.clone(),
            std_out_mode: self.std_out_mode,
            std_err: self.std_err.clone(),
            std_err_mode: self.std_err_mode,
        }
    }
}

/// What one redirection operator asks for: a stream and a mode for it.
#[derive(Clone, Copy, Debug, PartialEq, Eq, Structural)]
pub struct Redirect {
    pub stream: OutputMsgType,
    pub mode: OutputMode,
}

impl OutputConfView {
    /// The plan that redirects nothing.
    pub open spec fn inherit() -> OutputConfView {
        OutputConfView {
            std_out: Seq::empty(),
            std_out_mode: OutputMode::Default,
            std_err: Seq::empty(),
            std_err_mode: OutputMode::Default,
        }
    }

    /// The plan after one more redirection: the stream it names gets the new
    /// mode and target, whatever it had; the other stream keeps what it has.
    pub open spec fn with(self, redirect: Redirect, target: Seq<char>) -> OutputConfView {
        match redirect.stream {
            OutputMsgType::StdOut => OutputConfView {
                std_out: target,
                std_out_mode: redirect.mode,
                ..self
            },
            OutputMsgType::StdErr => OutputConfView {
                std_err: target,
                std_err_mode: redirect.mode,
                ..self
            },
        }
    }

    /// A stream has a target exactly if it is redirected.
    pub open spec fn wf(self) -> bool {
        &&& (self.std_out_mode is Default) == (self.std_out.len() == 0)
        &&& (self.std_err_mode is Default) == (self.std_err.len() == 0)
    }
}

/// The redirection a token stands for, if it is one of the six operators:
/// `>` and `1>` empty the target of the standard output, `>>` and `1>>` append
/// to it; `2>` and `2>>` do the same for the standard error.
pub open spec fn redirect_of(token: Seq<char>) -> Option<Redirect> {
    if token == seq!['>'] || token == seq!['1', '>'] {
        Some(Redirect { stream: OutputMsgType::StdOut, mode: OutputMode::File })
    } else if token == seq!['>', '>'] || token == seq!['1', '>', '>'] {
        Some(Redirect { stream: OutputMsgType::StdOut, mode: OutputMode::FileAppend })
    } else if token == seq!['2', '>'] {
        Some(Redirect { stream: OutputMsgType::StdErr, mode: OutputMode::File })
    } else if token == seq!['2', '>', '>'] {
        Some(Redirect { stream: OutputMsgType::StdErr, mode: OutputMode::FileAppend })
    } else {
        None
    }
}

/// The outcome of parsing the arguments of one stage.
pub struct Redirected {
    /// The arguments that remain for the command.
    pub args: Seq<Seq<char>>,
    /// The I/O plan.
    pub plan: OutputConfView,
    /// The last token was an operator, with no target after it.
    pub dangling: bool,
}

impl Redirected {
    /// Nothing parsed yet.
    pub open spec fn start() -> Redirected {
        Redirected { args: Seq::empty(), plan: OutputConfView::inherit(), dangling: false }
    }
}

/// Parsing from token `i` on, with `acc` the outcome of the tokens before it.
///
/// An operator takes the token after it as its target, whatever that token
/// is, and both leave the arguments; the plan changes as `with` says. An
/// operator that is the last token has no target: it leaves the arguments, is
/// marked as dangling, and the plan stays. Every other token is an argument.
pub open spec fn redirect_from(tokens: Seq<Seq<char>>, i: int, acc: Redirected) -> Redirected
    decreases tokens.len() - i,
{
    if i < 0 || i >= tokens.len() {
        acc
    } else {
        match redirect_of(tokens[i]) {
            Some(redirect) => if i + 1 < tokens.len() {
                redirect_from(
                    tokens,
                    i + 2,
                    Redirected { plan: acc.plan.with(redirect, tokens[i + 1]), ..acc },
                )
            } else {
                Redirected { dangling: true, ..acc }
            },
            None => redirect_from(tokens, i + 1, Redirected { args: acc.args.push(tokens[i]), ..acc }),
        }
    }
}

/// The outcome of parsing all the arguments of a stage, left to right.
pub open spec fn redirected(tokens: Seq<Seq<char>>) -> Redirected {
    redirect_from(tokens, 0, Redirected::start())
}

/// The record that reports an operator without a target.
pub open spec fn syntax_error() -> OutputMsgView {
    OutputMsgView { message: "syntax error"@, msg_type: OutputMsgType::StdErr }
}

/// No argument is a redirection operator.
pub open spec fn operator_free(args: Seq<Seq<char>>) -> bool {
    forall|i: int| 0 <= i < args.len() ==> redirect_of(#[trigger] args[i]) is None
}

/// Parsing never leaves an operator among the arguments.
pub proof fn lemma_redirect_from_operator_free(tokens: Seq<Seq<char>>, i: int, acc: Redirected)
    requires
        operator_free(acc.args),
    ensures
        operator_free(redirect_from(tokens, i, acc).args),
    decreases tokens.len() - i,
{
    if 0 <= i < tokens.len() {
        match redirect_of(tokens[i]) {
            Some(redirect) => {
                if i + 1 < tokens.len() {
                    lemma_redirect_from_operator_free(
                        tokens,
                        i + 2,
                        Redirected { plan: acc.plan.with(redirect, tokens[i + 1]), ..acc },
                    );
                }
            },
            None => {
                lemma_redirect_from_operator_free(
                    tokens,
                    i + 1,
                    Redirected { args: acc.args.push(tokens[i]), ..acc },
                );
            },
        }
    }
}

/// Where no token is empty, parsing keeps the plan well formed.
pub proof fn lemma_redirect_from_wf(tokens: Seq<Seq<char>>, i: int, acc: Redirected)
    requires
        all_nonempty(tokens),
        acc.plan.wf(),
    ensures
        redirect_from(tokens, i, acc).plan.wf(),
    decreases tokens.len() - i,
{
    if 0 <= i < tokens.len() {
        match redirect_of(tokens[i]) {
            Some(redirect) => {
                if i + 1 < tokens.len() {
                    assert(tokens[i + 1].len() > 0);
                    lemma_redirect_from_wf(
                        tokens,
                        i + 2,
                        Redirected { plan: acc.plan.with(redirect, tokens[i + 1]), ..acc },
                    );
                }
            },
            None => {
                lemma_redirect_from_wf(
                    tokens,
                    i + 1,
                    Redirected { args: acc.args.push(tokens[i]), ..acc },
                );
            },
        }
    }
}

/// After the redirection parser has run, no argument of the stage is a
/// redirection operator, whatever the tokens were.
pub proof fn lemma_no_operator_remains(tokens: Seq<Seq<char>>)
    ensures
        operator_free(redirected(tokens).args),
{
    lemma_redirect_from_operator_free(tokens, 0, Redirected::start());
}

/// Parsing a longer token sequence goes through the parse of its front, as
/// long as the front does not end in an operator without a target.
pub proof fn lemma_redirect_from_extended(
    tokens: Seq<Seq<char>>,
    more: Seq<Seq<char>>,
    i: int,
    acc: Redirected,
)
    requires
        0 <= i <= tokens.len(),
        !acc.dangling,
        !redirect_from(tokens, i, acc).dangling,
    ensures
        redirect_from(tokens + more, i, acc) == redirect_from(
            tokens + more,
            tokens.len() as int,
            redirect_from(tokens, i, acc),
        ),
    decreases tokens.len() - i,
{
    let all = tokens + more;
    if i < tokens.len() {
        assert(all[i] == tokens[i]);
        match redirect_of(tokens[i]) {
            Some(redirect) => {
                assert(i + 1 < tokens.len());
                assert(all[i + 1] == tokens[i + 1]);
                lemma_redirect_from_extended(
                    tokens,
                    more,
                    i + 2,
                    Redirected { plan: acc.plan.with(redirect, tokens[i + 1]), ..acc },
                );
            },
            None => {
                lemma_redirect_from_extended(
                    tokens,
                    more,
                    i + 1,
                    Redirected { args: acc.args.push(tokens[i]), ..acc },
                );
            },
        }
    }
}

/// The last redirection wins. Let `tokens` parse without an operator left
/// hanging, and let an operator and a target follow them. Then the stream the
/// operator names has exactly that operator's mode and that target, whatever
/// the tokens before had made of it; the other stream and the arguments are
/// as the tokens before left them.
pub proof fn lemma_last_redirection_wins(
    tokens: Seq<Seq<char>>,
    operator: Seq<char>,
    target: Seq<char>,
)
    requires
        redirect_of(operator) is Some,
        !redirected(tokens).dangling,
    ensures
        redirected(tokens + seq![operator, target]) == (Redirected {
            plan: redirected(tokens).plan.with(redirect_of(operator)->0, target),
            ..redirected(tokens)
        }),
{
    let more = seq![operator, target];
    let all = tokens + more;
    lemma_redirect_from_extended(tokens, more, 0, Redirected::start());
    let n = tokens.len() as int;
    assert(all[n] == operator);
    assert(all[n + 1] == target);
    let after = Redirected {
        plan: redirected(tokens).plan.with(redirect_of(operator)->0, target),
        ..redirected(tokens)
    };
    assert(redirect_from(all, n + 2, after) == after);
}

/// The redirection a token stands for.
pub fn operator(token: &str) -> (r: Option<Redirect>)
    ensures
        r == redirect_of(token@),
{
    proof {
        reveal_strlit(">");
        reveal_strlit("1>");
        reveal_strlit(">>");
        reveal_strlit("1>>");
        reveal_strlit("2>");
        reveal_strlit("2>>");
        assert(">"@ =~= seq!['>']);
        assert("1>"@ =~= seq!['1', '>']);
        assert(">>"@ =~= seq!['>', '>']);
        assert("1>>"@ =~= seq!['1', '>', '>']);
        assert("2>"@ =~= seq!['2', '>']);
        assert("2>>"@ =~= seq!['2', '>', '>']);
    }
    if same_text(token, ">") || same_text(token, "1>") {
        Some(Redirect { stream: OutputMsgType::StdOut, mode: OutputMode::File })
    } else if same_text(token, ">>") || same_text(token, "1>>") {
        Some(Redirect { stream: OutputMsgType::StdOut, mode: OutputMode::FileAppend })
    } else if same_text(token, "2>") {
        Some(Redirect { stream: OutputMsgType::StdErr, mode: OutputMode::File })
    } else if same_text(token, "2>>") {
        Some(Redirect { stream: OutputMsgType::StdErr, mode: OutputMode::FileAppend })
    } else {
        None
    }
}

/// Parses the redirections of one stage.
///
/// The tokens are read left to right. A redirection operator and the token
/// after it, its target, are taken out; the stream the operator names is set
/// to the operator's mode and that target, so that of several redirections of
/// one stream the last one counts. All other tokens are returned as the
/// arguments of the command, in their order, and none of them is an operator.
/// An operator that stands last has no target: it is taken out, the plan
/// stays as it was, and the third result is the record `syntax error` for the
/// standard error; otherwise the third result is `None`.
pub fn redirection(args: Vec<String>) -> (r: (Vec<String>, OutputConf, Option<OutputMsg>))
    ensures
        r.0.deep_view() == redirected(args.deep_view()).args,
        r.1@ == redirected(args.deep_view()).plan,
        r.2.deep_view() == (if redirected(args.deep_view()).dangling {
            Some(syntax_error())
        } else {
            None
        }),
        operator_free(r.0.deep_view()),
        all_nonempty(args.deep_view()) ==> r.1@.wf(),
{
    let mut kept: Vec<String> = Vec::new();
    let mut conf = OutputConf {
        std_out: String::new(),
        std_out_mode: OutputMode::Default,
        std_err: String::new(),
        std_err_mode: OutputMode::Default,
    };
    let mut report: Option<OutputMsg> = None;
    let ghost tokens = args.deep_view();
    let mut i: usize = 0;
    assert(kept.deep_view() =~= Seq::<Seq<char>>::empty());
    proof {
        lemma_no_operator_remains(tokens);
        if all_nonempty(tokens) {
            lemma_redirect_from_wf(tokens, 0, Redirected::start());
        }
    }
    while i < args.len()
        invariant_except_break
            report is None,
            redirected(tokens) == redirect_from(
                tokens,
                i as int,
                Redirected { args: kept.deep_view(), plan: conf@, dangling: false },
            ),
        invariant
            i <= args.len(),
            tokens == args.deep_view(),
        ensures
            redirected(tokens) == (Redirected {
                args: kept.deep_view(),
                plan: conf@,
                dangling: report is Some,
            }),
            report matches Some(record) ==> record@ == syntax_error(),
        decreases args.len() - i,
    {
        match operator(args[i].as_str()) {
            Some(redirect) => {
                if i + 1 < args.len() {
                    match redirect.stream {
                        OutputMsgType::StdOut => {
                            conf.std_out = args[i + 1].clone();
                            conf.std_out_mode = redirect.mode;
                        },
                        OutputMsgType::StdErr => {
                            conf.std_err = args[i + 1].clone();
                            conf.std_err_mode = redirect.mode;
                        },
                    }
                    i += 2;
                } else {
                    report = Some(err("syntax error".to_string()));
                    break ;
                }
            },
            None => {
                let ghost before = kept.deep_view();
                kept.push(args[i].clone());
                assert(kept.deep_view() =~= before.push(tokens[i as int]));
                i += 1;
            },
        }
    }
    (kept, conf, report)
}

} // verus!
