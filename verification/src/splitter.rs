//! The pipeline splitter: it parts a token sequence at every `|` into the
//! stages of a pipeline, each with a command name and its arguments.
use vstd::prelude::*;
use crate::text::same_text;

verus! {

/// Whether a token is the pipe operator `|`.
pub open spec fn is_pipe(token: Seq<char>) -> bool {
    token == seq!['|']
}

/// The tokens parted at every `|`: the runs of tokens between the pipe
/// operators, in order. There is one more run than there are operators, and a
/// run is empty where an operator stands first, last, or next to another.
pub open spec fn segments(tokens: Seq<Seq<char>>) -> Seq<Seq<Seq<char>>>
    decreases tokens.len(),
{
    if tokens.len() == 0 {
        seq![Seq::empty()]
    } else {
        let before = segments(tokens.drop_last());
        if is_pipe(tokens.last()) {
            before.push(Seq::empty())
        } else {
            before.drop_last().push(before.last().push(tokens.last()))
        }
    }
}

/// The command name of a run of tokens: its first token, or the empty name if
/// the run is empty.
pub open spec fn command_of(segment: Seq<Seq<char>>) -> Seq<char> {
    if segment.len() > 0 {
        segment[0]
    } else {
        Seq::empty()
    }
}

/// The arguments of a run of tokens: all that follows its first token.
pub open spec fn args_of(segment: Seq<Seq<char>>) -> Seq<Seq<char>> {
    if segment.len() > 0 {
        segment.skip(1)
    } else {
        Seq::empty()
    }
}

/// The command names of the stages of a token sequence, in order.
pub open spec fn stage_commands(tokens: Seq<Seq<char>>) -> Seq<Seq<char>> {
    segments(tokens).map_values(|s: Seq<Seq<char>>| command_of(s))
}

/// The argument lists of the stages of a token sequence, in order.
pub open spec fn stage_args(tokens: Seq<Seq<char>>) -> Seq<Seq<Seq<char>>> {
    segments(tokens).map_values(|s: Seq<Seq<char>>| args_of(s))
}

fn split_segments(tokens: &Vec<String>) -> (runs: Vec<Vec<String>>)
    ensures
        runs.deep_view() == segments(tokens.deep_view()),
{
    let mut done: Vec<Vec<String>> = Vec::new();
    let mut current: Vec<String> = Vec::new();
    let mut i: usize = 0;
    assert(tokens.deep_view().take(0) =~= Seq::<Seq<char>>::empty());
    assert(current.deep_view() =~= Seq::<Seq<char>>::empty());
    assert(done.deep_view().push(current.deep_view()) =~= seq![Seq::<Seq<char>>::empty()]);
    while i < tokens.len()
        invariant
            i <= tokens.len(),
            done.deep_view().push(current.deep_view()) == segments(
                tokens.deep_view().take(i as int),
            ),
        decreases tokens.len() - i,
    {
        let ghost all = tokens.deep_view();
        let ghost before = segments(all.take(i as int));
        proof {
            assert(all.take(i + 1).drop_last() =~= all.take(i as int));
            assert(all.take(i + 1).last() == tokens[i as int]@);
            assert(before.last() == current.deep_view());
            assert(before.drop_last() =~= done.deep_view());
        }
        if same_text(tokens[i].as_str(), "|") {
            proof {
                reveal_strlit("|");
                assert("|"@ =~= seq!['|']);
            }
            let ghost closed = done.deep_view();
            done.push(current);
            current = Vec::new();
            assert(done.deep_view() =~= closed.push(before.last()));
            assert(current.deep_view() =~= Seq::<Seq<char>>::empty());
        } else {
            proof {
                reveal_strlit("|");
                assert("|"@ =~= seq!['|']);
            }
            let ghost run = current.deep_view();
            current.push(tokens[i].clone());
            assert(current.deep_view() =~= run.push(tokens[i as int]@));
        }
        i += 1;
    }
    assert(tokens.deep_view().take(tokens.len() as int) =~= tokens.deep_view());
    let ghost closed = done.deep_view();
    done.push(current);
    assert(done.deep_view() =~= closed.push(current.deep_view()));
    done
}

/// Parts a token sequence into pipeline stages.
///
/// The tokens are cut at every `|`. Each run of tokens between two cuts is one
/// stage: its first token is the command name and the rest are the arguments.
/// The two results list the command names and the argument lists, stage by
/// stage, and so have the same length: one more than there are `|` tokens. A
/// `|` that stands first, last or next to another leaves a stage with an empty
/// command name and no arguments; so does an empty token sequence.
pub fn split_inputs(input_lines: Vec<String>) -> (r: (Vec<String>, Vec<Vec<String>>))
    ensures
        r.0.deep_view() == stage_commands(input_lines.deep_view()),
        r.1.deep_view() == stage_args(input_lines.deep_view()),
        r.0.len() == r.1.len(),
{
    let runs = split_segments(&input_lines);
    let mut cmds: Vec<String> = Vec::new();
    let mut args: Vec<Vec<String>> = Vec::new();
    let mut i: usize = 0;
    while i < runs.len()
        invariant
            i <= runs.len(),
            runs.deep_view() == segments(input_lines.deep_view()),
            cmds.deep_view() == stage_commands(input_lines.deep_view()).take(i as int),
            args.deep_view() == stage_args(input_lines.deep_view()).take(i as int),
        decreases runs.len() - i,
    {
        let run = &runs[i];
        let ghost names = cmds.deep_view();
        let ghost lists = args.deep_view();
        let mut rest: Vec<String> = Vec::new();
        if run.len() == 0 {
            cmds.push(String::new());
        } else {
            cmds.push(run[0].clone());
            let mut j: usize = 1;
            while j < run.len()
                invariant
                    1 <= j <= run.len(),
                    rest.deep_view() == run.deep_view().subrange(1, j as int),
                decreases run.len() - j,
            {
                let ghost sofar = rest.deep_view();
                rest.push(run[j].clone());
                assert(rest.deep_view() =~= sofar.push(run[j as int]@));
                j += 1;
            }
        }
        assert(rest.deep_view() =~= args_of(run.deep_view()));
        args.push(rest);
        proof {
            let segment = segments(input_lines.deep_view())[i as int];
            assert(segment == run.deep_view());
            assert(cmds.deep_view() =~= names.push(command_of(segment)));
            assert(args.deep_view() =~= lists.push(args_of(segment)));
        }
        i += 1;
    }
    (cmds, args)
}

/// A token sequence without any `|` is a single run.
pub proof fn lemma_segments_without_pipe(tokens: Seq<Seq<char>>)
    requires
        forall|i: int| 0 <= i < tokens.len() ==> !is_pipe(#[trigger] tokens[i]),
    ensures
        segments(tokens) == seq![tokens],
    decreases tokens.len(),
{
    if tokens.len() == 0 {
        assert(tokens =~= Seq::<Seq<char>>::empty());
        assert(segments(tokens) =~= seq![tokens]);
    } else {
        lemma_segments_without_pipe(tokens.drop_last());
        assert(tokens.drop_last().push(tokens.last()) =~= tokens);
        assert(segments(tokens) =~= seq![tokens]);
    }
}

/// A token sequence that holds no `|` makes exactly one stage. Its command
/// name is the first token and its arguments are all the tokens after it.
pub proof fn lemma_single_stage_without_pipe(tokens: Seq<Seq<char>>)
    requires
        forall|i: int| 0 <= i < tokens.len() ==> !is_pipe(#[trigger] tokens[i]),
    ensures
        stage_commands(tokens) == seq![command_of(tokens)],
        stage_args(tokens) == seq![args_of(tokens)],
        tokens.len() > 0 ==> stage_commands(tokens)[0] == tokens[0] && stage_args(tokens)[0]
            == tokens.skip(1),
{
    lemma_segments_without_pipe(tokens);
    assert(stage_commands(tokens) =~= seq![command_of(tokens)]);
    assert(stage_args(tokens) =~= seq![args_of(tokens)]);
}

} // verus!
