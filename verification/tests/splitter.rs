use minishell::splitter::split_inputs;

fn strings(words: &[&str]) -> Vec<String> {
    words.iter().map(|w| w.to_string()).collect()
}

#[test]
fn line_without_pipe_is_one_stage() {
    let (cmds, args) = split_inputs(strings(&["echo", "a", "b"]));
    assert_eq!(cmds, strings(&["echo"]));
    assert_eq!(args, vec![strings(&["a", "b"])]);
}

#[test]
fn command_without_arguments() {
    let (cmds, args) = split_inputs(strings(&["pwd"]));
    assert_eq!(cmds, strings(&["pwd"]));
    assert_eq!(args, vec![Vec::<String>::new()]);
}

#[test]
fn three_stages() {
    let (cmds, args) = split_inputs(strings(&["echo", "one", "|", "cat", "|", "wc", "-l"]));
    assert_eq!(cmds, strings(&["echo", "cat", "wc"]));
    assert_eq!(args, vec![strings(&["one"]), strings(&[]), strings(&["-l"])]);
}

#[test]
fn redirections_stay_among_the_arguments() {
    let (cmds, args) = split_inputs(strings(&["a", ">", "f", "|", "b", "2>", "g"]));
    assert_eq!(cmds, strings(&["a", "b"]));
    assert_eq!(args, vec![strings(&[">", "f"]), strings(&["2>", "g"])]);
}

#[test]
fn leading_pipe_leaves_an_empty_command() {
    let (cmds, args) = split_inputs(strings(&["|", "a"]));
    assert_eq!(cmds, strings(&["", "a"]));
    assert_eq!(args, vec![strings(&[]), strings(&[])]);
}

#[test]
fn trailing_pipe_leaves_an_empty_command() {
    let (cmds, args) = split_inputs(strings(&["a", "x", "|"]));
    assert_eq!(cmds, strings(&["a", ""]));
    assert_eq!(args, vec![strings(&["x"]), strings(&[])]);
}

#[test]
fn adjacent_pipes_leave_an_empty_command() {
    let (cmds, args) = split_inputs(strings(&["a", "|", "|", "b"]));
    assert_eq!(cmds, strings(&["a", "", "b"]));
    assert_eq!(args, vec![strings(&[]), strings(&[]), strings(&[])]);
}

#[test]
fn no_tokens_make_one_empty_stage() {
    let (cmds, args) = split_inputs(Vec::new());
    assert_eq!(cmds, strings(&[""]));
    assert_eq!(args, vec![Vec::<String>::new()]);
}

#[test]
fn stages_are_one_more_than_pipes() {
    let cases: Vec<Vec<&str>> = vec![vec!["a"], vec!["a", "|", "b"], vec!["|"], vec!["|", "|", "|"]];
    for case in cases {
        let pipes = case.iter().filter(|t| **t == "|").count();
        let (cmds, args) = split_inputs(strings(&case));
        assert_eq!(cmds.len(), pipes + 1);
        assert_eq!(args.len(), pipes + 1);
    }
}

#[test]
fn a_token_that_only_holds_a_pipe_character_among_others_is_no_pipe() {
    let (cmds, args) = split_inputs(strings(&["a", "||", "b|"]));
    assert_eq!(cmds, strings(&["a"]));
    assert_eq!(args, vec![strings(&["||", "b|"])]);
}
