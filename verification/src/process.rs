//! The external process runner: how a command that is not built in is to be
//! started.
use vstd::prelude::*;
use vstd::string::StringExecFns;
use crate::builtins::err_record;
use crate::output::{err, OutputMsg, OutputMsgType, OutputMsgView, PipeEnd};
use crate::redirect::{OutputConf, OutputConfView, OutputMode};

verus! {

/// What one of the three standard streams of a child process is attached to.
#[derive(Debug, PartialEq, Eq)]
pub enum Stdio {
    /// The shell's own stream.
    Inherit,
    /// An end of a pipe.
    Pipe(PipeEnd),
    /// The file at this path, created if missing and emptied.
    Truncate(String),
    /// The file at this path, created if missing and written at its end.
    Append(String),
}

/// An attachment as mathematics.
pub enum StdioView {
    Inherit,
    Pipe(PipeEnd),
    Truncate(Seq<char>),
    Append(Seq<char>),
}

impl DeepView for Stdio {
    type V = StdioView;

    open spec fn deep_view(&self) -> StdioView {
        match self {
            Stdio::Inherit => StdioView::Inherit,
            Stdio::Pipe(end) => StdioView::Pipe(*end),
            Stdio::Truncate(path) => StdioView::Truncate(path@),
            Stdio::Append(path) => StdioView::Append(path@),
        }
    }
}

impl View for Stdio {
    type V = StdioView;

    open spec fn view(&self) -> StdioView {
        self.deep_view()
    }
}

/// All that is needed to start a child process.
#[derive(Debug, PartialEq, Eq)]
pub struct ChildSpec {
    /// The name of the executable, to be searched on the search path.
    pub program: String,
    /// The arguments after the name.
    pub args: Vec<String>,
    pub stdin: Stdio,
    pub stdout: Stdio,
    pub stderr: Stdio,
}

/// A child specification as mathematics.
pub struct ChildSpecView {
    pub program: Seq<char>,
    pub args: Seq<Seq<char>>,
    pub stdin: StdioView,
    pub stdout: StdioView,
    pub stderr: StdioView,
}

impl DeepView for ChildSpec {
    type V = ChildSpecView;

    open spec fn deep_view(&self) -> ChildSpecView {
        ChildSpecView {
            program: self.program@,
            args: self.args.deep_view(),
            stdin: self.stdin@,
            stdout: self.stdout@,
            stderr: self.stderr@,
        }
    }
}

impl View for ChildSpec {
    type V = ChildSpecView;

    open spec fn view(&self) -> ChildSpecView {
        self.deep_view()
    }
}

/// What a stream is attached to when no pipe claims it: what its mode says.
pub open spec fn planned(mode: OutputMode, target: Seq<char>) -> StdioView {
    match mode {
        OutputMode::Default => StdioView::Inherit,
        OutputMode::File => StdioView::Truncate(target),
        OutputMode::FileAppend => StdioView::Append(target),
    }
}

/// The specification of a child.
///
/// Its standard input is the given pipe end, or the shell's own. Its standard
/// output is the given pipe end if there is one, which goes before any
/// redirection of the plan; without one it is what the plan says. Its
/// standard error is what the plan says.
pub open spec fn child_spec(
    cmd: Seq<char>,
    args: Seq<Seq<char>>,
    plan: OutputConfView,
    stdin: Option<PipeEnd>,
    stdout: Option<PipeEnd>,
) -> ChildSpecView {
    ChildSpecView {
        program: cmd,
        args,
        stdin: match stdin {
            Some(end) => StdioView::Pipe(end),
            None => StdioView::Inherit,
        },
        stdout: match stdout {
            Some(end) => StdioView::Pipe(end),
            None => planned(plan.std_out_mode, plan.std_out),
        },
        stderr: planned(plan.std_err_mode, plan.std_err),
    }
}

fn plan_stream(mode: OutputMode, target: &String) -> (stdio: Stdio)
    ensures
        stdio@ == planned(mode, target@),
{
    match mode {
        OutputMode::Default => Stdio::Inherit,
        OutputMode::File => Stdio::Truncate(target.clone()),
        OutputMode::FileAppend => Stdio::Append(target.clone()),
    }
}

/// Specifies the child process for a command that is not built in.
pub fn cmd_run(
    cmd: &str,
    args: &Vec<String>,
    output_conf: &OutputConf,
    stdin: Option<PipeEnd>,
    stdout: Option<PipeEnd>,
) -> (child: ChildSpec)
    ensures
        child@ == child_spec(cmd@, args.deep_view(), output_conf@, stdin, stdout),
{
    let child = ChildSpec {
        program: cmd.to_string(),
        args: args.clone(),
        stdin: match stdin {
            Some(end) => Stdio::Pipe(end),
            None => Stdio::Inherit,
        },
        stdout: match stdout {
            Some(end) => Stdio::Pipe(end),
            None => plan_stream(output_conf.std_out_mode, &output_conf.std_out),
        },
        stderr: plan_stream(output_conf.std_err_mode, &output_conf.std_err),
    };
    assert(child.args.deep_view() =~= args.deep_view());
    child
}

/// The record for a command that could not be started, for the shell's own
/// standard error.
pub fn command_not_found(cmd: &str) -> (record: OutputMsg)
    ensures
        record@ == err_record(cmd@ + ": command not found"@),
{
    let mut text = cmd.to_string();
    text.append(": command not found");
    err(text)
}

} // verus!
