//! The pipeline executor: the steps by which a chain of stages is run, and
//! the discipline by which the ends of its pipes are opened and closed.
use vstd::prelude::*;
use crate::output::{OutputMsg, OutputMsgView, PipeEnd};
use crate::process::{child_spec, cmd_run, ChildSpec, ChildSpecView, StdioView};
use crate::redirect::{redirected, redirection, syntax_error, OutputConf, OutputConfView};
use crate::splitter::{split_inputs, stage_args, stage_commands};
use crate::text::contains;

verus! {

/// One step of running a line. The caller performs the steps in order.
#[derive(Debug, PartialEq, Eq)]
pub enum Step {
    /// Create the pipe of this number; both its ends are then open in the
    /// shell.
    OpenPipe(usize),
    /// Write this record, with a newline, to the shell's own standard error.
    Report(OutputMsg),
    /// Run a built-in in the shell itself and wait for it. Its output goes
    /// into `stdout` if that is a pipe end, and else where `conf` says.
    Builtin { stage: usize, cmd: String, args: Vec<String>, conf: OutputConf, stdout: Option<PipeEnd> },
    /// Start a child process for a stage and go on without waiting. If it
    /// cannot be started, say on the shell's own standard error that the
    /// command was not found, and take the child for ended.
    Spawn { stage: usize, child: ChildSpec },
    /// Close this end of a pipe in the shell.
    Close(PipeEnd),
    /// Wait until the child of this stage has ended.
    Wait(usize),
}

/// A step as mathematics.
pub enum StepView {
    OpenPipe(usize),
    Report(OutputMsgView),
    Builtin {
        stage: usize,
        cmd: Seq<char>,
        args: Seq<Seq<char>>,
        conf: OutputConfView,
        stdout: Option<PipeEnd>,
    },
    Spawn { stage: usize, child: ChildSpecView },
    Close(PipeEnd),
    Wait(usize),
}

impl DeepView for Step {
    type V = StepView;

    open spec fn deep_view(&self) -> StepView {
        match self {
            Step::OpenPipe(pipe) => StepView::OpenPipe(*pipe),
            Step::Report(record) => StepView::Report(record@),
            Step::Builtin { stage, cmd, args, conf, stdout } => StepView::Builtin {
                stage: *stage,
                cmd: cmd@,
                args: args.deep_view(),
                conf: conf@,
                stdout: *stdout,
            },
            Step::Spawn { stage, child } => StepView::Spawn { stage: *stage, child: child@ },
            Step::Close(end) => StepView::Close(*end),
            Step::Wait(stage) => StepView::Wait(*stage),
        }
    }
}

impl View for Step {
    type V = StepView;

    open spec fn view(&self) -> StepView {
        self.deep_view()
    }
}

/// The pipe end a stage reads from: the pipe before it, if it is not the
/// first stage.
pub open spec fn stdin_of(stage: int) -> Option<PipeEnd> {
    if stage > 0 {
        Some(PipeEnd::Read((stage - 1) as usize))
    } else {
        None
    }
}

/// The pipe end a stage writes to: the pipe after it, if it is not the last
/// of `count` stages.
pub open spec fn stdout_of(stage: int, count: int) -> Option<PipeEnd> {
    if stage < count - 1 {
        Some(PipeEnd::Write(stage as usize))
    } else {
        None
    }
}

/// The step that runs one stage, given its arguments and plan as the
/// redirection parser left them: a built-in runs in the shell, any other
/// command as a child.
pub open spec fn run_step(
    cmd: Seq<char>,
    args: Seq<Seq<char>>,
    plan: OutputConfView,
    builtin: Seq<Seq<char>>,
    stage: int,
    count: int,
) -> StepView {
    if builtin.contains(cmd) {
        StepView::Builtin {
            stage: stage as usize,
            cmd,
            args,
            conf: plan,
            stdout: stdout_of(stage, count),
        }
    } else {
        StepView::Spawn {
            stage: stage as usize,
            child: child_spec(cmd, args, plan, stdin_of(stage), stdout_of(stage, count)),
        }
    }
}

/// The pipe ends that the shell closes once a stage is under way: the write
/// end of the pipe after it, then the read end of the pipe before it.
pub open spec fn closes(stage: int, count: int) -> Seq<StepView> {
    let after = if stage < count - 1 {
        seq![StepView::Close(PipeEnd::Write(stage as usize))]
    } else {
        Seq::empty()
    };
    if stage > 0 {
        after.push(StepView::Close(PipeEnd::Read((stage - 1) as usize)))
    } else {
        after
    }
}

/// The steps that launch one stage of `count`: its redirections are parsed
/// and an operator without a target is reported; the stage is run; the shell
/// closes the pipe ends that the stage has taken over.
pub open spec fn launch(
    cmd: Seq<char>,
    args: Seq<Seq<char>>,
    builtin: Seq<Seq<char>>,
    stage: int,
    count: int,
) -> Seq<StepView> {
    let parsed = redirected(args);
    let report = if parsed.dangling {
        seq![StepView::Report(syntax_error())]
    } else {
        Seq::empty()
    };
    report.push(run_step(cmd, parsed.args, parsed.plan, builtin, stage, count)) + closes(
        stage,
        count,
    )
}

/// The steps that create the first `upto` pipes.
pub open spec fn opens(upto: int) -> Seq<StepView>
    decreases upto,
{
    if upto <= 0 {
        Seq::empty()
    } else {
        opens(upto - 1).push(StepView::OpenPipe((upto - 1) as usize))
    }
}

/// The steps that launch the first `upto` stages, left to right.
pub open spec fn launches(
    cmds: Seq<Seq<char>>,
    args: Seq<Seq<Seq<char>>>,
    builtin: Seq<Seq<char>>,
    upto: int,
) -> Seq<StepView>
    decreases upto,
{
    if upto <= 0 {
        Seq::empty()
    } else {
        launches(cmds, args, builtin, upto - 1) + launch(
            cmds[upto - 1],
            args[upto - 1],
            builtin,
            upto - 1,
            cmds.len() as int,
        )
    }
}

/// The steps that wait for the children among the first `upto` stages, left
/// to right. A built-in has no child.
pub open spec fn waits(cmds: Seq<Seq<char>>, builtin: Seq<Seq<char>>, upto: int) -> Seq<StepView>
    decreases upto,
{
    if upto <= 0 {
        Seq::empty()
    } else {
        let before = waits(cmds, builtin, upto - 1);
        if builtin.contains(cmds[upto - 1]) {
            before
        } else {
            before.push(StepView::Wait((upto - 1) as usize))
        }
    }
}

/// All the steps of a pipeline: the pipes are created, one fewer than there
/// are stages; the stages are launched left to right; the children are waited
/// for left to right.
pub open spec fn pipeline_steps(
    cmds: Seq<Seq<char>>,
    args: Seq<Seq<Seq<char>>>,
    builtin: Seq<Seq<char>>,
) -> Seq<StepView> {
    opens(cmds.len() - 1) + launches(cmds, args, builtin, cmds.len() as int) + waits(
        cmds,
        builtin,
        cmds.len() as int,
    )
}

/// The steps of a command that stands alone, with its plan already made: it
/// is run, and waited for if it is a child.
pub open spec fn single_steps(
    cmd: Seq<char>,
    args: Seq<Seq<char>>,
    plan: OutputConfView,
    builtin: Seq<Seq<char>>,
) -> Seq<StepView> {
    if builtin.contains(cmd) {
        seq![run_step(cmd, args, plan, builtin, 0, 1)]
    } else {
        seq![run_step(cmd, args, plan, builtin, 0, 1), StepView::Wait(0)]
    }
}

/// Whether a step can be performed when exactly the pipe ends in `open` are
/// open in the shell: a pipe is created only if neither of its ends is open,
/// and an end is closed or handed to a stage only if it is open.
pub open spec fn step_ok(step: StepView, open: Set<PipeEnd>) -> bool {
    match step {
        StepView::OpenPipe(pipe) => !open.contains(PipeEnd::Read(pipe)) && !open.contains(
            PipeEnd::Write(pipe),
        ),
        StepView::Close(end) => open.contains(end),
        StepView::Builtin { stdout, .. } => stdout matches Some(end) ==> open.contains(end),
        StepView::Spawn { child, .. } => {
            &&& child.stdin matches StdioView::Pipe(end) ==> open.contains(end)
            &&& child.stdout matches StdioView::Pipe(end) ==> open.contains(end)
            &&& child.stderr matches StdioView::Pipe(end) ==> open.contains(end)
        },
        StepView::Report(_) => true,
        StepView::Wait(_) => true,
    }
}

/// The pipe ends that are open in the shell after a step.
pub open spec fn step_effect(step: StepView, open: Set<PipeEnd>) -> Set<PipeEnd> {
    match step {
        StepView::OpenPipe(pipe) => open.insert(PipeEnd::Read(pipe)).insert(PipeEnd::Write(pipe)),
        StepView::Close(end) => open.remove(end),
        _ => open,
    }
}

/// The pipe ends that are open in the shell after all of `steps`.
pub open spec fn run_effect(steps: Seq<StepView>, open: Set<PipeEnd>) -> Set<PipeEnd>
    decreases steps.len(),
{
    if steps.len() == 0 {
        open
    } else {
        step_effect(steps.last(), run_effect(steps.drop_last(), open))
    }
}

/// Whether every one of `steps` can be performed when its turn comes.
pub open spec fn run_ok(steps: Seq<StepView>, open: Set<PipeEnd>) -> bool
    decreases steps.len(),
{
    if steps.len() == 0 {
        true
    } else {
        run_ok(steps.drop_last(), open) && step_ok(
            steps.last(),
            run_effect(steps.drop_last(), open),
        )
    }
}

/// Performing one more step after `steps`.
pub proof fn lemma_run_push(steps: Seq<StepView>, step: StepView, open: Set<PipeEnd>)
    ensures
        run_effect(steps.push(step), open) == step_effect(step, run_effect(steps, open)),
        run_ok(steps.push(step), open) == (run_ok(steps, open) && step_ok(
            step,
            run_effect(steps, open),
        )),
{
    assert(steps.push(step).drop_last() =~= steps);
}

/// Performing `first` and then `then`.
pub proof fn lemma_run_append(first: Seq<StepView>, then: Seq<StepView>, open: Set<PipeEnd>)
    ensures
        run_effect(first + then, open) == run_effect(then, run_effect(first, open)),
        run_ok(first + then, open) == (run_ok(first, open) && run_ok(
            then,
            run_effect(first, open),
        )),
    decreases then.len(),
{
    if then.len() == 0 {
        assert(first + then =~= first);
    } else {
        lemma_run_append(first, then.drop_last(), open);
        assert((first + then).drop_last() =~= first + then.drop_last());
        assert((first + then).last() == then.last());
    }
}

/// Both ends of each of the first `count` pipes.
pub open spec fn pipes(count: int) -> Set<PipeEnd> {
    Set::new(
        |end: PipeEnd|
            match end {
                PipeEnd::Read(pipe) => pipe < count,
                PipeEnd::Write(pipe) => pipe < count,
            },
    )
}

/// The pipe ends that are open in the shell just before `stage` of `count`
/// stages is launched: the read end of the pipe before it, and both ends of
/// every pipe after that one.
pub open spec fn open_before(stage: int, count: int) -> Set<PipeEnd> {
    Set::new(
        |end: PipeEnd|
            match end {
                PipeEnd::Read(pipe) => stage - 1 <= pipe < count - 1,
                PipeEnd::Write(pipe) => stage <= pipe < count - 1,
            },
    )
}

/// None of the pipe ends in `open` belongs to one of the first `count` pipes.
pub open spec fn apart_from_pipes(open: Set<PipeEnd>, count: int) -> bool {
    forall|end: PipeEnd| open.contains(end) ==> !(#[trigger] pipes(count).contains(end))
}

/// Creating the pipes can be done in a state where no end of them is open,
/// and leaves both ends of each open beside what was open.
pub proof fn lemma_opens(upto: int, open: Set<PipeEnd>)
    requires
        upto <= usize::MAX,
        apart_from_pipes(open, upto),
    ensures
        run_ok(opens(upto), open),
        run_effect(opens(upto), open) == open.union(pipes(upto)),
    decreases upto,
{
    if upto <= 0 {
        assert(open.union(pipes(upto)) =~= open);
    } else {
        assert forall|end: PipeEnd| open.contains(end) implies !(#[trigger] pipes(
            upto - 1,
        ).contains(end)) by {
            assert(!pipes(upto).contains(end));
        }
        lemma_opens(upto - 1, open);
        let pipe = (upto - 1) as usize;
        lemma_run_push(opens(upto - 1), StepView::OpenPipe(pipe), open);
        assert(pipes(upto).contains(PipeEnd::Read(pipe)));
        assert(pipes(upto).contains(PipeEnd::Write(pipe)));
        assert(open.union(pipes(upto - 1)).insert(PipeEnd::Read(pipe)).insert(
            PipeEnd::Write(pipe),
        ) =~= open.union(pipes(upto)));
    }
}

/// Launching a stage can be done in the state before it, and leads to the
/// state before the next stage; what else was open stays open.
pub proof fn lemma_launch(
    cmd: Seq<char>,
    args: Seq<Seq<char>>,
    builtin: Seq<Seq<char>>,
    stage: int,
    count: int,
    open: Set<PipeEnd>,
)
    requires
        0 <= stage < count <= usize::MAX,
        apart_from_pipes(open, count - 1),
    ensures
        run_ok(launch(cmd, args, builtin, stage, count), open.union(open_before(stage, count))),
        run_effect(launch(cmd, args, builtin, stage, count), open.union(open_before(stage, count)))
            == open.union(open_before(stage + 1, count)),
{
    let held = open.union(open_before(stage, count));
    let parsed = redirected(args);
    let report = if parsed.dangling {
        seq![StepView::Report(syntax_error())]
    } else {
        Seq::empty()
    };
    let run = run_step(cmd, parsed.args, parsed.plan, builtin, stage, count);
    if parsed.dangling {
        lemma_run_push(Seq::empty(), StepView::Report(syntax_error()), held);
        assert(Seq::<StepView>::empty().push(StepView::Report(syntax_error())) =~= report);
    }
    assert(run_ok(report, held) && run_effect(report, held) == held);
    if stage > 0 {
        assert(open_before(stage, count).contains(PipeEnd::Read((stage - 1) as usize)));
        assert(pipes(count - 1).contains(PipeEnd::Read((stage - 1) as usize)));
    }
    if stage < count - 1 {
        assert(open_before(stage, count).contains(PipeEnd::Write(stage as usize)));
        assert(pipes(count - 1).contains(PipeEnd::Write(stage as usize)));
    }
    assert(step_ok(run, held));
    assert(step_effect(run, held) == held);
    lemma_run_push(report, run, held);
    let start = report.push(run);
    lemma_run_append(start, closes(stage, count), held);
    let after = if stage < count - 1 {
        seq![StepView::Close(PipeEnd::Write(stage as usize))]
    } else {
        Seq::empty()
    };
    let mid = if stage < count - 1 {
        held.remove(PipeEnd::Write(stage as usize))
    } else {
        held
    };
    if stage < count - 1 {
        lemma_run_push(Seq::empty(), StepView::Close(PipeEnd::Write(stage as usize)), held);
        assert(Seq::<StepView>::empty().push(StepView::Close(PipeEnd::Write(stage as usize)))
            =~= after);
    }
    assert(run_ok(after, held) && run_effect(after, held) == mid);
    if stage > 0 {
        lemma_run_push(after, StepView::Close(PipeEnd::Read((stage - 1) as usize)), held);
        assert(mid.contains(PipeEnd::Read((stage - 1) as usize)));
        assert(mid.remove(PipeEnd::Read((stage - 1) as usize)) =~= open.union(
            open_before(stage + 1, count),
        ));
    } else {
        assert(mid =~= open.union(open_before(stage + 1, count)));
    }
}

/// Launching the first `upto` stages can be done once the pipes are created,
/// and leads to the state before stage `upto`.
pub proof fn lemma_launches(
    cmds: Seq<Seq<char>>,
    args: Seq<Seq<Seq<char>>>,
    builtin: Seq<Seq<char>>,
    upto: int,
    open: Set<PipeEnd>,
)
    requires
        0 <= upto <= cmds.len() <= usize::MAX,
        apart_from_pipes(open, cmds.len() - 1),
    ensures
        run_ok(
            launches(cmds, args, builtin, upto),
            open.union(open_before(0, cmds.len() as int)),
        ),
        run_effect(
            launches(cmds, args, builtin, upto),
            open.union(open_before(0, cmds.len() as int)),
        ) == open.union(open_before(upto, cmds.len() as int)),
    decreases upto,
{
    if upto > 0 {
        let count = cmds.len() as int;
        lemma_launches(cmds, args, builtin, upto - 1, open);
        lemma_launch(cmds[upto - 1], args[upto - 1], builtin, upto - 1, count, open);
        lemma_run_append(
            launches(cmds, args, builtin, upto - 1),
            launch(cmds[upto - 1], args[upto - 1], builtin, upto - 1, count),
            open.union(open_before(0, count)),
        );
    }
}

/// Waiting opens and closes nothing.
pub proof fn lemma_waits(
    cmds: Seq<Seq<char>>,
    builtin: Seq<Seq<char>>,
    upto: int,
    open: Set<PipeEnd>,
)
    ensures
        run_ok(waits(cmds, builtin, upto), open),
        run_effect(waits(cmds, builtin, upto), open) == open,
    decreases upto,
{
    if upto > 0 {
        lemma_waits(cmds, builtin, upto - 1, open);
        if !builtin.contains(cmds[upto - 1]) {
            lemma_run_push(
                waits(cmds, builtin, upto - 1),
                StepView::Wait((upto - 1) as usize),
                open,
            );
        }
    }
}

/// The descriptor discipline of a pipeline. Let `open` be the pipe ends that
/// are open in the shell before the pipeline, none of them an end of a pipe
/// that the pipeline is about to create. Then every step of the pipeline can
/// be performed when its turn comes: no end is closed or handed to a stage
/// unless it is open, so none is closed twice. And when the last step is done,
/// exactly the ends in `open` are open again: the shell has the descriptors it
/// had before the pipeline. Whether a child could be started plays no part
/// in this.
pub proof fn lemma_pipeline_restores_descriptors(
    cmds: Seq<Seq<char>>,
    args: Seq<Seq<Seq<char>>>,
    builtin: Seq<Seq<char>>,
    open: Set<PipeEnd>,
)
    requires
        cmds.len() <= usize::MAX,
        apart_from_pipes(open, cmds.len() - 1),
    ensures
        run_ok(pipeline_steps(cmds, args, builtin), open),
        run_effect(pipeline_steps(cmds, args, builtin), open) == open,
{
    let count = cmds.len() as int;
    let created = opens(count - 1);
    let launched = launches(cmds, args, builtin, count);
    let waited = waits(cmds, builtin, count);
    lemma_opens(count - 1, open);
    assert(pipes(count - 1) =~= open_before(0, count));
    lemma_launches(cmds, args, builtin, count, open);
    assert(open.union(open_before(count, count)) =~= open);
    lemma_run_append(created, launched, open);
    lemma_waits(cmds, builtin, count, open);
    lemma_run_append(created + launched, waited, open);
}

/// A command that stands alone touches no pipe: its steps can be performed
/// whatever is open, and leave open what was open.
pub proof fn lemma_single_touches_no_pipe(
    cmd: Seq<char>,
    args: Seq<Seq<char>>,
    plan: OutputConfView,
    builtin: Seq<Seq<char>>,
    open: Set<PipeEnd>,
)
    ensures
        run_ok(single_steps(cmd, args, plan, builtin), open),
        run_effect(single_steps(cmd, args, plan, builtin), open) == open,
{
    let run = run_step(cmd, args, plan, builtin, 0, 1);
    lemma_run_push(Seq::empty(), run, open);
    assert(Seq::<StepView>::empty().push(run) =~= seq![run]);
    if !builtin.contains(cmd) {
        lemma_run_push(seq![run], StepView::Wait(0), open);
        assert(seq![run].push(StepView::Wait(0)) =~= seq![run, StepView::Wait(0)]);
    }
}

fn push_step(steps: &mut Vec<Step>, step: Step)
    ensures
        final(steps).deep_view() == old(steps).deep_view().push(step@),
{
    let ghost before = steps.deep_view();
    steps.push(step);
    assert(steps.deep_view() =~= before.push(step@));
}

fn stage_step(
    cmd: &str,
    args: Vec<String>,
    conf: OutputConf,
    builtin: &Vec<String>,
    stage: usize,
    count: usize,
) -> (step: Step)
    requires
        stage < count,
    ensures
        step@ == run_step(
            cmd@,
            args.deep_view(),
            conf@,
            builtin.deep_view(),
            stage as int,
            count as int,
        ),
{
    let stdout = if stage + 1 < count {
        Some(PipeEnd::Write(stage))
    } else {
        None
    };
    if contains(builtin, cmd) {
        Step::Builtin { stage, cmd: cmd.to_string(), args, conf, stdout }
    } else {
        let stdin = if stage > 0 {
            Some(PipeEnd::Read(stage - 1))
        } else {
            None
        };
        Step::Spawn { stage, child: cmd_run(cmd, &args, &conf, stdin, stdout) }
    }
}

/// Plans the run of a pipeline.
///
/// `cmds` and `args` list the command names and the arguments of the stages,
/// as the splitter hands them out; the arguments still hold the redirections.
/// Every stage must have its arguments; lists of arguments beyond the last
/// stage are ignored.
/// The result is the list of steps to perform, in order: create one pipe
/// between each two neighbouring stages; then, stage by stage from the left,
/// report a redirection without a target, run the stage, and close in the
/// shell the write end of the pipe after it and the read end of the pipe
/// before it; at last wait for every child, from the left.
///
/// A stage reads from the pipe before it and writes into the pipe after it.
/// The pipe after a stage goes before a redirection of its standard output;
/// only the last stage sends its standard output where its plan says. A
/// built-in runs in the shell itself, any other command as a child.
///
/// The steps keep the descriptor discipline: performed in order from a state
/// with no pipe end open, each finds open what it closes or hands on, and
/// after the last no pipe end is open.
pub fn run_pipeline(cmds: Vec<String>, args: Vec<Vec<String>>, builtin: &Vec<String>) -> (steps:
    Vec<Step>)
    requires
        cmds.len() <= args.len(),
    ensures
        steps.deep_view() == pipeline_steps(
            cmds.deep_view(),
            args.deep_view(),
            builtin.deep_view(),
        ),
        run_ok(steps.deep_view(), Set::empty()),
        run_effect(steps.deep_view(), Set::empty()) == Set::<PipeEnd>::empty(),
{
    let count = cmds.len();
    let ghost names = cmds.deep_view();
    let ghost lists = args.deep_view();
    let ghost known = builtin.deep_view();
    let mut steps: Vec<Step> = Vec::new();
    assert(steps.deep_view() =~= Seq::<StepView>::empty());
    let mut pipe: usize = 0;
    while pipe + 1 < count
        invariant
            pipe == 0 || pipe < count,
            steps.deep_view() == opens(pipe as int),
            opens(count - 1) == opens(if count == 0 { 0 } else { count - 1 }),
        decreases count - pipe,
    {
        push_step(&mut steps, Step::OpenPipe(pipe));
        pipe += 1;
    }
    assert(steps.deep_view() == opens(count - 1));
    let mut stage: usize = 0;
    assert(opens(count - 1) + launches(names, lists, known, 0) =~= opens(count - 1));
    while stage < count
        invariant
            stage <= count,
            count == cmds.len(),
            count <= args.len(),
            names == cmds.deep_view(),
            lists == args.deep_view(),
            known == builtin.deep_view(),
            steps.deep_view() == opens(count - 1) + launches(names, lists, known, stage as int),
        decreases count - stage,
    {
        let ghost before = steps.deep_view();
        let ghost parsed = redirected(lists[stage as int]);
        let (rest, conf, report) = redirection(args[stage].clone());
        assert(args[stage as int].deep_view() == lists[stage as int]);
        match report {
            Some(record) => {
                push_step(&mut steps, Step::Report(record));
            },
            None => {},
        }
        let step = stage_step(cmds[stage].as_str(), rest, conf, builtin, stage, count);
        push_step(&mut steps, step);
        if stage + 1 < count {
            push_step(&mut steps, Step::Close(PipeEnd::Write(stage)));
        }
        if stage > 0 {
            push_step(&mut steps, Step::Close(PipeEnd::Read(stage - 1)));
        }
        proof {
            let launched = launch(names[stage as int], lists[stage as int], known, stage as int, count as int);
            assert(steps.deep_view() =~= before + launched);
            assert(before + launched =~= opens(count - 1) + (launches(
                names,
                lists,
                known,
                stage as int,
            ) + launched));
        }
        stage += 1;
    }
    let ghost launched = steps.deep_view();
    let mut child: usize = 0;
    assert(launched + waits(names, known, 0) =~= launched);
    while child < count
        invariant
            child <= count,
            count == cmds.len(),
            names == cmds.deep_view(),
            known == builtin.deep_view(),
            steps.deep_view() == launched + waits(names, known, child as int),
        decreases count - child,
    {
        let ghost before = steps.deep_view();
        if !contains(builtin, cmds[child].as_str()) {
            push_step(&mut steps, Step::Wait(child));
            assert(steps.deep_view() =~= launched + waits(names, known, child as int).push(
                StepView::Wait(child),
            ));
        }
        child += 1;
    }
    proof {
        lemma_pipeline_restores_descriptors(names, lists, known, Set::empty());
    }
    steps
}

/// Plans the run of a command that stands alone, with its plan already made:
/// the command is run, as a built-in in the shell itself or else as a child
/// that is then waited for. No pipe is involved.
pub fn command_handler(
    cmd: &str,
    args: &Vec<String>,
    builtin: &Vec<String>,
    output_conf: OutputConf,
) -> (steps: Vec<Step>)
    ensures
        steps.deep_view() == single_steps(
            cmd@,
            args.deep_view(),
            output_conf@,
            builtin.deep_view(),
        ),
        run_ok(steps.deep_view(), Set::empty()),
        run_effect(steps.deep_view(), Set::empty()) == Set::<PipeEnd>::empty(),
{
    let mut steps: Vec<Step> = Vec::new();
    assert(steps.deep_view() =~= Seq::<StepView>::empty());
    let rest = args.clone();
    assert(rest.deep_view() =~= args.deep_view());
    let external = !contains(builtin, cmd);
    let step = stage_step(cmd, rest, output_conf, builtin, 0, 1);
    push_step(&mut steps, step);
    if external {
        push_step(&mut steps, Step::Wait(0));
    }
    proof {
        assert(steps.deep_view() =~= single_steps(
            cmd@,
            args.deep_view(),
            output_conf@,
            builtin.deep_view(),
        ));
        lemma_single_touches_no_pipe(
            cmd@,
            args.deep_view(),
            output_conf@,
            builtin.deep_view(),
            Set::empty(),
        );
    }
    steps
}

/// A pipeline of one stage is that stage standing alone, after a report if
/// its redirections left an operator without a target.
pub proof fn lemma_pipeline_of_one(cmd: Seq<char>, args: Seq<Seq<char>>, builtin: Seq<Seq<char>>)
    ensures
        pipeline_steps(seq![cmd], seq![args], builtin) == (if redirected(args).dangling {
            seq![StepView::Report(syntax_error())]
        } else {
            Seq::empty()
        }) + single_steps(cmd, redirected(args).args, redirected(args).plan, builtin),
{
    let cmds = seq![cmd];
    let lists = seq![args];
    assert(opens(0) =~= Seq::<StepView>::empty());
    assert(launches(cmds, lists, builtin, 0) =~= Seq::<StepView>::empty());
    assert(launches(cmds, lists, builtin, 1) =~= launch(cmd, args, builtin, 0, 1));
    assert(waits(cmds, builtin, 0) =~= Seq::<StepView>::empty());
    assert(closes(0, 1) =~= Seq::<StepView>::empty());
    let report = if redirected(args).dangling {
        seq![StepView::Report(syntax_error())]
    } else {
        Seq::empty()
    };
    assert(pipeline_steps(cmds, lists, builtin) =~= report + single_steps(
        cmd,
        redirected(args).args,
        redirected(args).plan,
        builtin,
    ));
}

/// Plans one turn of the shell from the tokens of a logical line.
///
/// An empty line comes to nothing. Any other line is split into stages at its
/// `|` tokens and planned as a pipeline; a line without `|` is a pipeline of
/// one stage.
pub fn plan_line(tokens: Vec<String>, builtin: &Vec<String>) -> (steps: Vec<Step>)
    ensures
        steps.deep_view() == (if tokens.len() == 0 {
            Seq::empty()
        } else {
            pipeline_steps(
                stage_commands(tokens.deep_view()),
                stage_args(tokens.deep_view()),
                builtin.deep_view(),
            )
        }),
        run_ok(steps.deep_view(), Set::empty()),
        run_effect(steps.deep_view(), Set::empty()) == Set::<PipeEnd>::empty(),
{
    if tokens.len() == 0 {
        let steps: Vec<Step> = Vec::new();
        assert(steps.deep_view() =~= Seq::<StepView>::empty());
        return steps;
    }
    let (cmds, args) = split_inputs(tokens);
    run_pipeline(cmds, args, builtin)
}

} // verus!
