//! The built-in commands: what each reports, and what it asks the caller to
//! do to the world outside.
use vstd::prelude::*;
use vstd::string::StringExecFns;
use rustyline::history::DefaultHistory;
use crate::history::{history_entries, history_lines};
use crate::output::{err, msg, OutputMsg, OutputMsgType, OutputMsgView};
use crate::text::{contains, count_of, decimal, decimal_string, join, joined, parse_count, same_text};

verus! {

/// A record for the standard output, as mathematics.
pub open spec fn out_record(message: Seq<char>) -> OutputMsgView {
    OutputMsgView { message, msg_type: OutputMsgType::StdOut }
}

/// A record for the standard error, as mathematics.
pub open spec fn err_record(message: Seq<char>) -> OutputMsgView {
    OutputMsgView { message, msg_type: OutputMsgType::StdErr }
}

/// The names of the built-in commands.
pub fn builtin_names() -> (names: Vec<String>)
    ensures
        names.deep_view() == seq!["echo"@, "exit"@, "type"@, "pwd"@, "cd"@, "history"@],
{
    let mut names: Vec<String> = Vec::new();
    names.push("echo".to_string());
    names.push("exit".to_string());
    names.push("type".to_string());
    names.push("pwd".to_string());
    names.push("cd".to_string());
    names.push("history".to_string());
    assert(names.deep_view() =~= seq!["echo"@, "exit"@, "type"@, "pwd"@, "cd"@, "history"@]);
    names
}

/// `echo`: one record for the standard output, the arguments joined by single
/// spaces.
pub fn cmd_echo(args: &Vec<String>) -> (record: Option<OutputMsg>)
    ensures
        record.deep_view() == Some(out_record(joined(args.deep_view(), seq![' ']))),
{
    proof {
        reveal_strlit(" ");
        assert(" "@ =~= seq![' ']);
    }
    Some(msg(join(args, " ")))
}

/// One place where a command might be found: a directory of the search path
/// with the command's name joined to it, and whether a file is there.
#[derive(Debug, PartialEq, Eq)]
pub struct PathCandidate {
    pub path: String,
    pub exists: bool,
}

/// A candidate as mathematics.
pub struct PathCandidateView {
    pub path: Seq<char>,
    pub exists: bool,
}

impl DeepView for PathCandidate {
    type V = PathCandidateView;

    open spec fn deep_view(&self) -> PathCandidateView {
        PathCandidateView { path: self.path@, exists: self.exists }
    }
}

impl View for PathCandidate {
    type V = PathCandidateView;

    open spec fn view(&self) -> PathCandidateView {
        self.deep_view()
    }
}

/// What the caller found on the search path for one name.
#[derive(Debug, PartialEq, Eq)]
pub enum PathSearch {
    /// The search path variable is not set.
    Unset,
    /// The candidates, in the order of the directories of the search path.
    Candidates(Vec<PathCandidate>),
}

/// A search as mathematics.
pub enum PathSearchView {
    Unset,
    Candidates(Seq<PathCandidateView>),
}

impl DeepView for PathSearch {
    type V = PathSearchView;

    open spec fn deep_view(&self) -> PathSearchView {
        match self {
            PathSearch::Unset => PathSearchView::Unset,
            PathSearch::Candidates(found) => PathSearchView::Candidates(found.deep_view()),
        }
    }
}

impl View for PathSearch {
    type V = PathSearchView;

    open spec fn view(&self) -> PathSearchView {
        self.deep_view()
    }
}

/// The path of the first candidate from `i` on that exists.
pub open spec fn first_hit(found: Seq<PathCandidateView>, i: int) -> Option<Seq<char>>
    decreases found.len() - i,
{
    if i < 0 || i >= found.len() {
        None
    } else if found[i].exists {
        Some(found[i].path)
    } else {
        first_hit(found, i + 1)
    }
}

/// What `type` reports for one name.
///
/// Nothing for the empty name. A built-in is reported as such. Any other name
/// is reported with the first place on the search path where it exists, or as
/// not found; without a search path that failure is reported instead.
pub open spec fn type_report(
    name: Seq<char>,
    builtin: Seq<Seq<char>>,
    search: PathSearchView,
) -> Option<OutputMsgView> {
    if name.len() == 0 {
        None
    } else if builtin.contains(name) {
        Some(out_record(name + " is a shell builtin"@))
    } else {
        match search {
            PathSearchView::Unset => Some(err_record("failed to get path variable"@)),
            PathSearchView::Candidates(found) => match first_hit(found, 0) {
                Some(path) => Some(out_record(name + " is "@ + path)),
                None => Some(err_record(name + ": not found"@)),
            },
        }
    }
}

/// `type`, for one name.
pub fn cmd_type(arg: &String, builtin: &Vec<String>, search: &PathSearch) -> (record: Option<
    OutputMsg,
>)
    ensures
        record.deep_view() == type_report(arg@, builtin.deep_view(), search@),
{
    if arg.as_str().is_empty() {
        return None;
    }
    if contains(builtin, arg.as_str()) {
        let mut text = arg.clone();
        text.append(" is a shell builtin");
        return Some(msg(text));
    }
    match search {
        PathSearch::Unset => Some(err("failed to get path variable".to_string())),
        PathSearch::Candidates(found) => {
            let mut i: usize = 0;
            while i < found.len()
                invariant
                    i <= found.len(),
                    arg@.len() > 0,
                    !builtin.deep_view().contains(arg@),
                    search@ == PathSearchView::Candidates(found.deep_view()),
                    first_hit(found.deep_view(), 0) == first_hit(found.deep_view(), i as int),
                decreases found.len() - i,
            {
                assert(found.deep_view()[i as int] == found[i as int]@);
                if found[i].exists {
                    let mut text = arg.clone();
                    text.append(" is ");
                    text.append(found[i].path.as_str());
                    return Some(msg(text));
                }
                i += 1;
            }
            let mut text = arg.clone();
            text.append(": not found");
            Some(err(text))
        },
    }
}

/// `pwd`: one record for the standard output, the working directory.
pub fn cmd_pwd(cwd: &str) -> (record: Option<OutputMsg>)
    ensures
        record.deep_view() == Some(out_record(cwd@)),
{
    Some(msg(cwd.to_string()))
}

/// Something a built-in asks the caller to do.
#[derive(Debug, PartialEq, Eq)]
pub enum Request {
    /// End the shell with status 0.
    Exit,
    /// Make this directory the working directory; if that fails, report
    /// `cd_failure` of the path.
    ChangeDir(String),
    /// Load the history from the file at this path.
    LoadHistory(String),
    /// Put this text into the file at `path`, in place of what it holds.
    WriteHistory { path: String, text: String },
    /// Put this text at the end of the file at `path`.
    AppendHistory { path: String, text: String },
}

/// A request as mathematics.
pub enum RequestView {
    Exit,
    ChangeDir(Seq<char>),
    LoadHistory(Seq<char>),
    WriteHistory { path: Seq<char>, text: Seq<char> },
    AppendHistory { path: Seq<char>, text: Seq<char> },
}

impl DeepView for Request {
    type V = RequestView;

    open spec fn deep_view(&self) -> RequestView {
        match self {
            Request::Exit => RequestView::Exit,
            Request::ChangeDir(path) => RequestView::ChangeDir(path@),
            Request::LoadHistory(path) => RequestView::LoadHistory(path@),
            Request::WriteHistory { path, text } => RequestView::WriteHistory {
                path: path@,
                text: text@,
            },
            Request::AppendHistory { path, text } => RequestView::AppendHistory {
                path: path@,
                text: text@,
            },
        }
    }
}

impl View for Request {
    type V = RequestView;

    open spec fn view(&self) -> RequestView {
        self.deep_view()
    }
}

/// A path with a leading `~` replaced by the home directory.
pub open spec fn expanded(path: Seq<char>, home: Seq<char>) -> Seq<char> {
    if path.len() > 0 && path[0] == '~' {
        home + path.skip(1)
    } else {
        path
    }
}

/// What `cd` reports at once, and what it asks for.
///
/// Without an argument it does nothing. With more than one it reports that
/// and asks for nothing. With one, it asks for a change to that path, a
/// leading `~` replaced by the home directory; if the home directory is not
/// known it says so and asks for the path as it was given.
pub open spec fn cd_plan(args: Seq<Seq<char>>, home: Option<Seq<char>>) -> (
    Option<OutputMsgView>,
    Option<RequestView>,
) {
    if args.len() == 0 {
        (None, None)
    } else if args.len() > 1 {
        (Some(err_record("cd: too many arguments"@)), None)
    } else {
        match home {
            Some(dir) => (None, Some(RequestView::ChangeDir(expanded(args[0], dir)))),
            None => (
                Some(err_record("could not determine the home directory."@)),
                Some(RequestView::ChangeDir(args[0])),
            ),
        }
    }
}

fn expand(path: &str, home: &str) -> (full: String)
    ensures
        full@ == expanded(path@, home@),
{
    let chars = crate::text::chars_of(path);
    if chars.len() > 0 && chars[0] == '~' {
        let mut full = home.to_string();
        let mut i: usize = 1;
        assert(path@.skip(1).take(0) =~= Seq::<char>::empty());
        assert(home@ + Seq::<char>::empty() =~= home@);
        while i < chars.len()
            invariant
                1 <= i <= chars.len(),
                chars@ == path@,
                full@ == home@ + path@.skip(1).take(i - 1),
            decreases chars.len() - i,
        {
            full.push(chars[i]);
            assert(path@.skip(1).take(i - 1).push(chars[i as int]) =~= path@.skip(1).take(i as int));
            assert(full@ =~= home@ + path@.skip(1).take(i as int));
            i += 1;
        }
        assert(path@.skip(1).take(chars.len() - 1) =~= path@.skip(1));
        full
    } else {
        path.to_string()
    }
}

/// `cd`: the record to report at once, if any, and the change of directory to
/// ask for, if any.
pub fn cmd_cd(args: &Vec<String>, home: &Option<String>) -> (r: (Option<OutputMsg>, Option<Request>))
    ensures
        (r.0.deep_view(), r.1.deep_view()) == cd_plan(args.deep_view(), home.deep_view()),
{
    if args.len() == 0 {
        return (None, None);
    }
    if args.len() > 1 {
        return (Some(err("cd: too many arguments".to_string())), None);
    }
    match home {
        Some(dir) => (None, Some(Request::ChangeDir(expand(args[0].as_str(), dir.as_str())))),
        None => (
            Some(err("could not determine the home directory.".to_string())),
            Some(Request::ChangeDir(args[0].clone())),
        ),
    }
}

/// The record `cd` reports when the change to `path` has failed.
pub fn cd_failure(path: &str) -> (record: OutputMsg)
    ensures
        record@ == err_record("cd: "@ + path@ + ": No such file or directory"@),
{
    let mut text = "cd: ".to_string();
    text.append(path);
    text.append(": No such file or directory");
    err(text)
}

/// One line of the history listing: a tab, the entry's number counted from
/// one, a space, the entry.
pub open spec fn history_line(number: nat, entry: Seq<char>) -> Seq<char> {
    seq!['\t'] + decimal(number) + seq![' '] + entry
}

/// The lines of the listing of the entries from `start` on; each entry keeps
/// the number it has in the whole history.
pub open spec fn listing_lines(entries: Seq<Seq<char>>, start: int) -> Seq<Seq<char>> {
    Seq::new(
        (entries.len() - start) as nat,
        |k: int| history_line((start + k + 1) as nat, entries[start + k]),
    )
}

/// The listing of the last `count` entries, or of all if there are fewer:
/// their lines, joined by newlines.
pub open spec fn listing(entries: Seq<Seq<char>>, count: nat) -> Seq<char> {
    let start = if entries.len() > count {
        entries.len() - count
    } else {
        0
    };
    joined(listing_lines(entries, start), seq!['\n'])
}

/// The entries as the text of a history file: one entry per line, oldest
/// first, every line ended by a newline.
pub open spec fn file_text(entries: Seq<Seq<char>>) -> Seq<char>
    decreases entries.len(),
{
    if entries.len() == 0 {
        Seq::empty()
    } else {
        file_text(entries.drop_last()) + entries.last().push('\n')
    }
}

/// What `history` reports, and what it asks for.
///
/// * Without an argument: the listing of all entries, as one record.
/// * `-r FILE`: load the history from the file. `-w FILE`: write all entries
///   to the file in place of what it holds. `-a FILE`: write all entries at
///   the end of the file. None of the three reports anything; used without a
///   file, each reports that the option requires an argument.
/// * A count: the listing of that many of the newest entries.
/// * Anything else is reported as not being a number.
///
/// Arguments after those named are ignored.
pub open spec fn history_plan(entries: Seq<Seq<char>>, args: Seq<Seq<char>>) -> (
    Option<OutputMsgView>,
    Option<RequestView>,
) {
    if args.len() == 0 {
        (Some(out_record(listing(entries, entries.len()))), None)
    } else if args[0] == "-r"@ || args[0] == "-w"@ || args[0] == "-a"@ {
        if args.len() < 2 {
            (Some(err_record("history: "@ + args[0] + ": option requires an argument"@)), None)
        } else if args[0] == "-r"@ {
            (None, Some(RequestView::LoadHistory(args[1])))
        } else if args[0] == "-w"@ {
            (None, Some(RequestView::WriteHistory { path: args[1], text: file_text(entries) }))
        } else {
            (None, Some(RequestView::AppendHistory { path: args[1], text: file_text(entries) }))
        }
    } else {
        match count_of(args[0]) {
            Some(count) => (Some(out_record(listing(entries, count as nat))), None),
            None => (
                Some(err_record("history: "@ + args[0] + ": numeric argument required"@)),
                None,
            ),
        }
    }
}

fn list(entries: &Vec<String>, count: usize) -> (text: String)
    ensures
        text@ == listing(entries.deep_view(), count as nat),
{
    let start: usize = if entries.len() > count {
        entries.len() - count
    } else {
        0
    };
    let mut lines: Vec<String> = Vec::new();
    let mut i: usize = start;
    while i < entries.len()
        invariant
            start <= i <= entries.len(),
            lines.len() == i - start,
            forall|k: int|
                0 <= k < i - start ==> (#[trigger] lines[k])@ == history_line(
                    (start + k + 1) as nat,
                    entries[start + k]@,
                ),
        decreases entries.len() - i,
    {
        proof {
            reveal_strlit("\t");
            reveal_strlit(" ");
            assert("\t"@ =~= seq!['\t']);
            assert(" "@ =~= seq![' ']);
        }
        let mut line = "\t".to_string();
        line.append(decimal_string(i + 1).as_str());
        line.append(" ");
        line.append(entries[i].as_str());
        lines.push(line);
        i += 1;
    }
    proof {
        reveal_strlit("\n");
        assert("\n"@ =~= seq!['\n']);
        assert(lines.deep_view() =~= listing_lines(entries.deep_view(), start as int));
    }
    join(&lines, "\n")
}

fn file_lines(entries: &Vec<String>) -> (text: String)
    ensures
        text@ == file_text(entries.deep_view()),
{
    let mut text = String::new();
    let mut i: usize = 0;
    assert(entries.deep_view().take(0) =~= Seq::<Seq<char>>::empty());
    while i < entries.len()
        invariant
            i <= entries.len(),
            text@ == file_text(entries.deep_view().take(i as int)),
        decreases entries.len() - i,
    {
        let ghost all = entries.deep_view();
        let ghost before = text@;
        proof {
            assert(all.take(i + 1).drop_last() =~= all.take(i as int));
            assert(all.take(i + 1).last() == entries[i as int]@);
        }
        text.append(entries[i].as_str());
        text.push('\n');
        assert(text@ =~= before + entries[i as int]@.push('\n'));
        i += 1;
    }
    assert(entries.deep_view().take(entries.len() as int) =~= entries.deep_view());
    text
}

/// `history` on the entries of a history: the record to report, if any, and
/// what to do with a history file, if anything.
pub fn history_report(entries: &Vec<String>, args: &Vec<String>) -> (r: (
    Option<OutputMsg>,
    Option<Request>,
))
    ensures
        (r.0.deep_view(), r.1.deep_view()) == history_plan(entries.deep_view(), args.deep_view()),
{
    if args.len() == 0 {
        return (Some(msg(list(entries, entries.len()))), None);
    }
    let first = args[0].as_str();
    let load = same_text(first, "-r");
    let write = same_text(first, "-w");
    let append = same_text(first, "-a");
    if load || write || append {
        if args.len() < 2 {
            let mut text = "history: ".to_string();
            text.append(first);
            text.append(": option requires an argument");
            (Some(err(text)), None)
        } else if load {
            (None, Some(Request::LoadHistory(args[1].clone())))
        } else if write {
            (None, Some(Request::WriteHistory { path: args[1].clone(), text: file_lines(entries) }))
        } else {
            (
                None,
                Some(Request::AppendHistory { path: args[1].clone(), text: file_lines(entries) }),
            )
        }
    } else {
        match parse_count(first) {
            Some(count) => (Some(msg(list(entries, count))), None),
            None => {
                let mut text = "history: ".to_string();
                text.append(first);
                text.append(": numeric argument required");
                (Some(err(text)), None)
            },
        }
    }
}

/// `history` on the history store of the line editor: `history_report` of
/// the entries that the store holds.
pub fn cmd_history(history: &DefaultHistory, args: &Vec<String>) -> (r: (
    Option<OutputMsg>,
    Option<Request>,
))
    ensures
        (r.0.deep_view(), r.1.deep_view()) == history_plan(
            history_entries(*history),
            args.deep_view(),
        ),
{
    let entries = history_lines(history);
    history_report(&entries, args)
}

/// What the caller has observed of the world outside, for the built-ins that
/// depend on it.
#[derive(Debug, PartialEq, Eq)]
pub struct Environment {
    /// For `type`: the search for each argument, in the order of the
    /// arguments. An argument without one counts as searched without a
    /// search path.
    pub searches: Vec<PathSearch>,
    /// The working directory.
    pub cwd: String,
    /// The home directory, if it is known.
    pub home: Option<String>,
}

/// The observations as mathematics.
pub struct EnvironmentView {
    pub searches: Seq<PathSearchView>,
    pub cwd: Seq<char>,
    pub home: Option<Seq<char>>,
}

impl DeepView for Environment {
    type V = EnvironmentView;

    open spec fn deep_view(&self) -> EnvironmentView {
        EnvironmentView {
            searches: self.searches.deep_view(),
            cwd: self.cwd@,
            home: self.home.deep_view(),
        }
    }
}

impl View for Environment {
    type V = EnvironmentView;

    open spec fn view(&self) -> EnvironmentView {
        self.deep_view()
    }
}

/// What running a built-in comes to: its records in the order it produced
/// them, and what it asks the caller to do.
#[derive(Debug, PartialEq, Eq)]
pub struct Outcome {
    pub outputs: Vec<Option<OutputMsg>>,
    pub request: Option<Request>,
}

/// An outcome as mathematics.
pub struct OutcomeView {
    pub outputs: Seq<Option<OutputMsgView>>,
    pub request: Option<RequestView>,
}

impl DeepView for Outcome {
    type V = OutcomeView;

    open spec fn deep_view(&self) -> OutcomeView {
        OutcomeView { outputs: self.outputs.deep_view(), request: self.request.deep_view() }
    }
}

impl View for Outcome {
    type V = OutcomeView;

    open spec fn view(&self) -> OutcomeView {
        self.deep_view()
    }
}

/// The search that belongs to argument `i`. An argument for which the caller
/// supplied none counts as searched without a search path.
pub open spec fn search_at(searches: Seq<PathSearchView>, i: int) -> PathSearchView {
    if 0 <= i < searches.len() {
        searches[i]
    } else {
        PathSearchView::Unset
    }
}

/// Whether the built-in of this name looks at the searches of the
/// environment: only `type` does.
pub fn consults_search_path(cmd: &str) -> (r: bool)
    ensures
        r == (cmd@ == "type"@),
{
    same_text(cmd, "type")
}

/// What each command name comes to.
///
/// `exit` asks for the end of the shell, with status 0 whatever its
/// arguments. `echo`, `pwd`, `cd` and `history` have one entry in the
/// outputs, which holds a record or none. `type` has one entry for each
/// argument. Any other name comes to nothing.
pub open spec fn builtin_outcome(
    cmd: Seq<char>,
    args: Seq<Seq<char>>,
    builtin: Seq<Seq<char>>,
    entries: Seq<Seq<char>>,
    env: EnvironmentView,
) -> OutcomeView {
    if cmd == "exit"@ {
        OutcomeView { outputs: Seq::empty(), request: Some(RequestView::Exit) }
    } else if cmd == "echo"@ {
        OutcomeView {
            outputs: seq![Some(out_record(joined(args, seq![' '])))],
            request: None,
        }
    } else if cmd == "type"@ {
        OutcomeView {
            outputs: Seq::new(
                args.len(),
                |i: int| type_report(args[i], builtin, search_at(env.searches, i)),
            ),
            request: None,
        }
    } else if cmd == "pwd"@ {
        OutcomeView { outputs: seq![Some(out_record(env.cwd))], request: None }
    } else if cmd == "cd"@ {
        OutcomeView {
            outputs: seq![cd_plan(args, env.home).0],
            request: cd_plan(args, env.home).1,
        }
    } else if cmd == "history"@ {
        OutcomeView {
            outputs: seq![history_plan(entries, args).0],
            request: history_plan(entries, args).1,
        }
    } else {
        OutcomeView { outputs: Seq::empty(), request: None }
    }
}

/// Runs the built-in of the given name on the entries of the history and on
/// what the caller has observed.
pub fn dispatch(
    cmd: &str,
    args: &Vec<String>,
    builtin: &Vec<String>,
    entries: &Vec<String>,
    env: &Environment,
) -> (outcome: Outcome)
    ensures
        outcome@ == builtin_outcome(
            cmd@,
            args.deep_view(),
            builtin.deep_view(),
            entries.deep_view(),
            env@,
        ),
{
    let mut outputs: Vec<Option<OutputMsg>> = Vec::new();
    let mut request: Option<Request> = None;
    assert(outputs.deep_view() =~= Seq::<Option<OutputMsgView>>::empty());
    if same_text(cmd, "exit") {
        request = Some(Request::Exit);
    } else if same_text(cmd, "echo") {
        let record = cmd_echo(args);
        outputs.push(record);
        assert(outputs.deep_view() =~= seq![record.deep_view()]);
    } else if same_text(cmd, "type") {
        let unset = PathSearch::Unset;
        let mut i: usize = 0;
        while i < args.len()
            invariant
                i <= args.len(),
                unset@ == PathSearchView::Unset,
                outputs.len() == i,
                forall|k: int|
                    0 <= k < i ==> (#[trigger] outputs[k]).deep_view() == type_report(
                        args[k]@,
                        builtin.deep_view(),
                        search_at(env@.searches, k),
                    ),
            decreases args.len() - i,
        {
            let search = if i < env.searches.len() {
                &env.searches[i]
            } else {
                &unset
            };
            outputs.push(cmd_type(&args[i], builtin, search));
            i += 1;
        }
        assert(outputs.deep_view() =~= Seq::new(
            args.deep_view().len(),
            |i: int|
                type_report(args.deep_view()[i], builtin.deep_view(), search_at(env@.searches, i)),
        ));
    } else if same_text(cmd, "pwd") {
        let record = cmd_pwd(env.cwd.as_str());
        outputs.push(record);
        assert(outputs.deep_view() =~= seq![record.deep_view()]);
    } else if same_text(cmd, "cd") {
        let (record, asked) = cmd_cd(args, &env.home);
        outputs.push(record);
        request = asked;
        assert(outputs.deep_view() =~= seq![record.deep_view()]);
    } else if same_text(cmd, "history") {
        let (record, asked) = history_report(entries, args);
        outputs.push(record);
        request = asked;
        assert(outputs.deep_view() =~= seq![record.deep_view()]);
    }
    Outcome { outputs, request }
}

/// Runs the built-in of the given name on the history store of the line
/// editor and on what the caller has observed: `dispatch` on the entries that
/// the store holds.
pub fn run_builtin(
    cmd: &str,
    args: &Vec<String>,
    builtin: &Vec<String>,
    history: &DefaultHistory,
    env: &Environment,
) -> (outcome: Outcome)
    ensures
        outcome@ == builtin_outcome(
            cmd@,
            args.deep_view(),
            builtin.deep_view(),
            history_entries(*history),
            env@,
        ),
{
    let entries = history_lines(history);
    dispatch(cmd, args, builtin, &entries, env)
}

} // verus!
