use minishell::builtins::{
    builtin_names, cd_failure, cmd_cd, cmd_echo, cmd_history, cmd_pwd, cmd_type,
    consults_search_path, dispatch,
    history_report, run_builtin, Environment, Outcome, PathCandidate, PathSearch, Request,
};
use minishell::output::{OutputMsg, OutputMsgType};
use rustyline::history::{DefaultHistory, History};

fn strings(words: &[&str]) -> Vec<String> {
    words.iter().map(|w| w.to_string()).collect()
}

fn out(text: &str) -> OutputMsg {
    OutputMsg { message: text.to_string(), msg_type: OutputMsgType::StdOut }
}

fn error(text: &str) -> OutputMsg {
    OutputMsg { message: text.to_string(), msg_type: OutputMsgType::StdErr }
}

fn history_of(lines: &[&str]) -> DefaultHistory {
    let mut history = DefaultHistory::new();
    for line in lines {
        history.add(line).unwrap();
    }
    history
}

fn env() -> Environment {
    Environment { searches: vec![], cwd: "/work".to_string(), home: Some("/home/u".to_string()) }
}

fn candidate(path: &str, exists: bool) -> PathCandidate {
    PathCandidate { path: path.to_string(), exists }
}

#[test]
fn six_builtins() {
    assert_eq!(builtin_names(), strings(&["echo", "exit", "type", "pwd", "cd", "history"]));
}

#[test]
fn echo_joins_by_single_spaces() {
    assert_eq!(cmd_echo(&strings(&["hello", "world"])), Some(out("hello world")));
    assert_eq!(cmd_echo(&strings(&["foo   bar"])), Some(out("foo   bar")));
    assert_eq!(cmd_echo(&strings(&["a\"b"])), Some(out("a\"b")));
}

#[test]
fn echo_without_arguments_emits_an_empty_record() {
    assert_eq!(cmd_echo(&strings(&[])), Some(out("")));
}

#[test]
fn type_of_a_builtin() {
    let search = PathSearch::Candidates(vec![candidate("/bin/echo", true)]);
    let record = cmd_type(&"echo".to_string(), &builtin_names(), &search);
    assert_eq!(record, Some(out("echo is a shell builtin")));
}

#[test]
fn type_of_an_executable_reports_the_first_hit() {
    let search = PathSearch::Candidates(vec![
        candidate("/opt/bin/ls", false),
        candidate("/usr/bin/ls", true),
        candidate("/bin/ls", true),
    ]);
    let record = cmd_type(&"ls".to_string(), &builtin_names(), &search);
    assert_eq!(record, Some(out("ls is /usr/bin/ls")));
}

#[test]
fn type_of_an_unknown_name() {
    let search = PathSearch::Candidates(vec![candidate("/bin/nonexistent", false)]);
    let record = cmd_type(&"nonexistent".to_string(), &builtin_names(), &search);
    assert_eq!(record, Some(error("nonexistent: not found")));
    let record = cmd_type(&"nonexistent".to_string(), &builtin_names(), &PathSearch::Candidates(vec![]));
    assert_eq!(record, Some(error("nonexistent: not found")));
}

#[test]
fn type_without_search_path() {
    let record = cmd_type(&"ls".to_string(), &builtin_names(), &PathSearch::Unset);
    assert_eq!(record, Some(error("failed to get path variable")));
    let record = cmd_type(&"cd".to_string(), &builtin_names(), &PathSearch::Unset);
    assert_eq!(record, Some(out("cd is a shell builtin")));
}

#[test]
fn type_of_the_empty_name_reports_nothing() {
    assert_eq!(cmd_type(&String::new(), &builtin_names(), &PathSearch::Unset), None);
}

#[test]
fn pwd_reports_the_working_directory() {
    assert_eq!(cmd_pwd("/home/u/src"), Some(out("/home/u/src")));
}

#[test]
fn cd_without_argument_does_nothing() {
    assert_eq!(cmd_cd(&strings(&[]), &Some("/home/u".to_string())), (None, None));
    assert_eq!(cmd_cd(&strings(&[]), &None), (None, None));
}

#[test]
fn cd_with_too_many_arguments() {
    let r = cmd_cd(&strings(&["a", "b"]), &Some("/home/u".to_string()));
    assert_eq!(r, (Some(error("cd: too many arguments")), None));
}

#[test]
fn cd_asks_for_the_change() {
    let r = cmd_cd(&strings(&["/tmp"]), &Some("/home/u".to_string()));
    assert_eq!(r, (None, Some(Request::ChangeDir("/tmp".to_string()))));
}

#[test]
fn cd_expands_a_leading_tilde() {
    let home = Some("/home/u".to_string());
    assert_eq!(cmd_cd(&strings(&["~"]), &home), (None, Some(Request::ChangeDir("/home/u".to_string()))));
    assert_eq!(
        cmd_cd(&strings(&["~/src"]), &home),
        (None, Some(Request::ChangeDir("/home/u/src".to_string())))
    );
    assert_eq!(
        cmd_cd(&strings(&["a/~/b"]), &home),
        (None, Some(Request::ChangeDir("a/~/b".to_string())))
    );
}

#[test]
fn cd_without_home_directory() {
    let r = cmd_cd(&strings(&["~/src"]), &None);
    assert_eq!(
        r,
        (
            Some(error("could not determine the home directory.")),
            Some(Request::ChangeDir("~/src".to_string()))
        )
    );
}

#[test]
fn cd_failure_names_the_path() {
    assert_eq!(cd_failure("/nowhere"), error("cd: /nowhere: No such file or directory"));
}

#[test]
fn history_lists_all_entries() {
    let history = history_of(&["ls", "pwd", "echo a b"]);
    let r = cmd_history(&history, &strings(&[]));
    assert_eq!(r, (Some(out("\t1 ls\n\t2 pwd\n\t3 echo a b")), None));
}

#[test]
fn history_of_an_empty_store() {
    let history = history_of(&[]);
    assert_eq!(cmd_history(&history, &strings(&[])), (Some(out("")), None));
}

#[test]
fn history_lists_the_last_entries_with_their_numbers() {
    let history = history_of(&["a", "b", "c", "d"]);
    assert_eq!(cmd_history(&history, &strings(&["2"])), (Some(out("\t3 c\n\t4 d")), None));
    assert_eq!(cmd_history(&history, &strings(&["1"])), (Some(out("\t4 d")), None));
    assert_eq!(cmd_history(&history, &strings(&["0"])), (Some(out("")), None));
    assert_eq!(
        cmd_history(&history, &strings(&["9"])),
        (Some(out("\t1 a\n\t2 b\n\t3 c\n\t4 d")), None)
    );
}

#[test]
fn history_numbers_run_past_nine() {
    let lines: Vec<String> = (1..=11).map(|i| format!("cmd{}", i)).collect();
    let refs: Vec<&str> = lines.iter().map(|s| s.as_str()).collect();
    let history = history_of(&refs);
    assert_eq!(cmd_history(&history, &strings(&["3"])), (Some(out("\t9 cmd9\n\t10 cmd10\n\t11 cmd11")), None));
}

#[test]
fn history_load() {
    let history = history_of(&["a"]);
    assert_eq!(
        cmd_history(&history, &strings(&["-r", "/tmp/h"])),
        (None, Some(Request::LoadHistory("/tmp/h".to_string())))
    );
}

#[test]
fn history_write() {
    let history = history_of(&["ls", "echo a"]);
    assert_eq!(
        cmd_history(&history, &strings(&["-w", "/tmp/h"])),
        (None, Some(Request::WriteHistory { path: "/tmp/h".to_string(), text: "ls\necho a\n".to_string() }))
    );
}

#[test]
fn history_append() {
    let history = history_of(&["ls", "echo a"]);
    assert_eq!(
        cmd_history(&history, &strings(&["-a", "/tmp/h"])),
        (None, Some(Request::AppendHistory { path: "/tmp/h".to_string(), text: "ls\necho a\n".to_string() }))
    );
    let empty = history_of(&[]);
    assert_eq!(
        cmd_history(&empty, &strings(&["-a", "f"])),
        (None, Some(Request::AppendHistory { path: "f".to_string(), text: String::new() }))
    );
}

#[test]
fn history_option_without_file() {
    let history = history_of(&["a"]);
    for flag in ["-r", "-w", "-a"] {
        let expected = format!("history: {}: option requires an argument", flag);
        assert_eq!(cmd_history(&history, &strings(&[flag])), (Some(error(&expected)), None));
    }
}

#[test]
fn history_with_what_is_no_count() {
    let history = history_of(&["a"]);
    assert_eq!(
        cmd_history(&history, &strings(&["abc"])),
        (Some(error("history: abc: numeric argument required")), None)
    );
    assert_eq!(
        cmd_history(&history, &strings(&["-x", "f"])),
        (Some(error("history: -x: numeric argument required")), None)
    );
}

#[test]
fn run_exit() {
    let history = history_of(&[]);
    let outcome = run_builtin("exit", &strings(&["3"]), &builtin_names(), &history, &env());
    assert_eq!(outcome, Outcome { outputs: vec![], request: Some(Request::Exit) });
}

#[test]
fn run_echo() {
    let history = history_of(&[]);
    let outcome = run_builtin("echo", &strings(&["hello", "world"]), &builtin_names(), &history, &env());
    assert_eq!(outcome, Outcome { outputs: vec![Some(out("hello world"))], request: None });
}

#[test]
fn run_type_reports_each_argument() {
    let history = history_of(&[]);
    let environment = Environment {
        searches: vec![
            PathSearch::Candidates(vec![]),
            PathSearch::Candidates(vec![candidate("/bin/nonexistent", false)]),
            PathSearch::Candidates(vec![candidate("/bin/cat", true)]),
        ],
        cwd: "/".to_string(),
        home: None,
    };
    let outcome = run_builtin(
        "type",
        &strings(&["echo", "nonexistent", "cat"]),
        &builtin_names(),
        &history,
        &environment,
    );
    assert_eq!(
        outcome,
        Outcome {
            outputs: vec![
                Some(out("echo is a shell builtin")),
                Some(error("nonexistent: not found")),
                Some(out("cat is /bin/cat")),
            ],
            request: None,
        }
    );
}

#[test]
fn run_type_without_arguments() {
    let history = history_of(&[]);
    let outcome = run_builtin("type", &strings(&[]), &builtin_names(), &history, &env());
    assert_eq!(outcome, Outcome { outputs: vec![], request: None });
}

#[test]
fn run_pwd() {
    let history = history_of(&[]);
    let outcome = run_builtin("pwd", &strings(&["ignored"]), &builtin_names(), &history, &env());
    assert_eq!(outcome, Outcome { outputs: vec![Some(out("/work"))], request: None });
}

#[test]
fn run_cd() {
    let history = history_of(&[]);
    let outcome = run_builtin("cd", &strings(&["~/x"]), &builtin_names(), &history, &env());
    assert_eq!(
        outcome,
        Outcome { outputs: vec![None], request: Some(Request::ChangeDir("/home/u/x".to_string())) }
    );
    let outcome = run_builtin("cd", &strings(&[]), &builtin_names(), &history, &env());
    assert_eq!(outcome, Outcome { outputs: vec![None], request: None });
}

#[test]
fn run_history() {
    let history = history_of(&["ls", "history"]);
    let outcome = run_builtin("history", &strings(&[]), &builtin_names(), &history, &env());
    assert_eq!(outcome, Outcome { outputs: vec![Some(out("\t1 ls\n\t2 history"))], request: None });
    let outcome = run_builtin("history", &strings(&["-w", "f"]), &builtin_names(), &history, &env());
    assert_eq!(
        outcome,
        Outcome {
            outputs: vec![None],
            request: Some(Request::WriteHistory { path: "f".to_string(), text: "ls\nhistory\n".to_string() }),
        }
    );
}

#[test]
fn run_unknown_name_comes_to_nothing() {
    let history = history_of(&[]);
    let outcome = run_builtin("ls", &strings(&["-l"]), &builtin_names(), &history, &env());
    assert_eq!(outcome, Outcome { outputs: vec![], request: None });
}

#[test]
fn run_type_without_a_search_for_an_argument() {
    let history = history_of(&[]);
    let environment = Environment {
        searches: vec![PathSearch::Candidates(vec![candidate("/bin/ls", true)])],
        cwd: "/".to_string(),
        home: None,
    };
    let outcome = run_builtin("type", &strings(&["ls", "cat", "cd"]), &builtin_names(), &history, &environment);
    assert_eq!(
        outcome,
        Outcome {
            outputs: vec![
                Some(out("ls is /bin/ls")),
                Some(error("failed to get path variable")),
                Some(out("cd is a shell builtin")),
            ],
            request: None,
        }
    );
}

#[test]
fn history_report_on_plain_entries() {
    let entries = strings(&["a", "b", "c"]);
    assert_eq!(history_report(&entries, &strings(&[])), (Some(out("\t1 a\n\t2 b\n\t3 c")), None));
    assert_eq!(history_report(&entries, &strings(&["2", "ignored"])), (Some(out("\t2 b\n\t3 c")), None));
    assert_eq!(history_report(&entries, &strings(&["+1"])), (Some(out("\t3 c")), None));
    assert_eq!(
        history_report(&entries, &strings(&["-w", "f", "ignored"])),
        (None, Some(Request::WriteHistory { path: "f".to_string(), text: "a\nb\nc\n".to_string() }))
    );
    assert_eq!(
        history_report(&entries, &strings(&["-5"])),
        (Some(error("history: -5: numeric argument required")), None)
    );
}

#[test]
fn dispatch_agrees_with_run_builtin() {
    let history = history_of(&["x", "y"]);
    let entries = strings(&["x", "y"]);
    let names = builtin_names();
    for cmd in ["exit", "echo", "type", "pwd", "cd", "history", "ls", ""] {
        for args in [strings(&[]), strings(&["1"]), strings(&["a", "b"])] {
            assert_eq!(
                dispatch(cmd, &args, &names, &entries, &env()),
                run_builtin(cmd, &args, &names, &history, &env())
            );
        }
    }
}

#[test]
fn history_listing_shows_what_the_store_holds() {
    let mut history = history_of(&["first"]);
    assert_eq!(cmd_history(&history, &strings(&[])), (Some(out("\t1 first")), None));
    history.add("second").unwrap();
    assert_eq!(cmd_history(&history, &strings(&[])), (Some(out("\t1 first\n\t2 second")), None));
}

#[test]
fn only_type_consults_the_search_path() {
    assert!(consults_search_path("type"));
    for cmd in ["echo", "exit", "pwd", "cd", "history", "ls", "", "types"] {
        assert!(!consults_search_path(cmd));
    }
}
