use minishell::output::{
    err, msg, output_handler, output_to_pipe, stage_deliveries, Delivery, OutputMsg,
    OutputMsgType, PipeEnd, Sink,
};
use minishell::redirect::{OutputConf, OutputMode};

fn conf(out: &str, out_mode: OutputMode, err: &str, err_mode: OutputMode) -> OutputConf {
    OutputConf {
        std_out: out.to_string(),
        std_out_mode: out_mode,
        std_err: err.to_string(),
        std_err_mode: err_mode,
    }
}

fn inherit() -> OutputConf {
    conf("", OutputMode::Default, "", OutputMode::Default)
}

fn write(sink: Sink, text: &str) -> Delivery {
    Delivery { sink, text: text.to_string() }
}

#[test]
fn msg_is_for_stdout() {
    let record = msg("hello".to_string());
    assert_eq!(record, OutputMsg { message: "hello".to_string(), msg_type: OutputMsgType::StdOut });
}

#[test]
fn err_is_for_stderr() {
    let record = err("oops".to_string());
    assert_eq!(record, OutputMsg { message: "oops".to_string(), msg_type: OutputMsgType::StdErr });
}

#[test]
fn records_go_to_the_shell_streams_by_default() {
    let outputs = vec![Some(msg("a".to_string())), Some(err("b".to_string()))];
    let writes = output_handler(outputs, inherit());
    assert_eq!(writes, vec![write(Sink::Stdout, "a\n"), write(Sink::Stderr, "b\n")]);
}

#[test]
fn no_record_and_no_target_route_nothing() {
    assert_eq!(output_handler(vec![], inherit()), vec![]);
    assert_eq!(output_handler(vec![None, None], inherit()), vec![]);
}

#[test]
fn absent_records_are_skipped() {
    let outputs = vec![None, Some(msg("a".to_string())), None, Some(msg("b".to_string()))];
    let writes = output_handler(outputs, inherit());
    assert_eq!(writes, vec![write(Sink::Stdout, "a\n"), write(Sink::Stdout, "b\n")]);
}

#[test]
fn truncating_stdout_touches_then_writes() {
    let outputs = vec![Some(msg("hi".to_string()))];
    let writes = output_handler(outputs, conf("/tmp/out", OutputMode::File, "", OutputMode::Default));
    assert_eq!(
        writes,
        vec![
            write(Sink::Append("/tmp/out".to_string()), ""),
            write(Sink::Truncate("/tmp/out".to_string()), "hi\n"),
        ]
    );
    for w in &writes {
        assert!(w.sink != Sink::Stdout);
    }
}

#[test]
fn appending_plan_appends_every_record() {
    let outputs = vec![Some(msg("a".to_string())), Some(msg("b".to_string()))];
    let writes = output_handler(outputs, conf("log", OutputMode::FileAppend, "", OutputMode::Default));
    assert_eq!(
        writes,
        vec![
            write(Sink::Append("log".to_string()), ""),
            write(Sink::Append("log".to_string()), "a\n"),
            write(Sink::Append("log".to_string()), "b\n"),
        ]
    );
}

#[test]
fn target_is_touched_even_without_records() {
    let writes = output_handler(vec![], conf("o", OutputMode::File, "e", OutputMode::FileAppend));
    assert_eq!(
        writes,
        vec![write(Sink::Append("o".to_string()), ""), write(Sink::Append("e".to_string()), "")]
    );
}

#[test]
fn stderr_redirection_leaves_stdout_alone() {
    let outputs = vec![Some(msg("a".to_string())), Some(err("b".to_string()))];
    let writes = output_handler(outputs, conf("", OutputMode::Default, "e", OutputMode::File));
    assert_eq!(
        writes,
        vec![
            write(Sink::Append("e".to_string()), ""),
            write(Sink::Stdout, "a\n"),
            write(Sink::Truncate("e".to_string()), "b\n"),
        ]
    );
}

#[test]
fn records_keep_their_order_across_streams() {
    let outputs = vec![
        Some(err("1".to_string())),
        Some(msg("2".to_string())),
        Some(err("3".to_string())),
        Some(msg("4".to_string())),
    ];
    let writes = output_handler(outputs, inherit());
    let texts: Vec<&str> = writes.iter().map(|w| w.text.as_str()).collect();
    assert_eq!(texts, vec!["1\n", "2\n", "3\n", "4\n"]);
}

#[test]
fn piped_stdout_goes_into_the_pipe_and_stderr_to_the_shell() {
    let outputs = vec![Some(msg("one".to_string())), None, Some(err("bad".to_string()))];
    let writes = output_to_pipe(&outputs, PipeEnd::Write(0));
    assert_eq!(
        writes,
        vec![write(Sink::Pipe(PipeEnd::Write(0)), "one\n"), write(Sink::Stderr, "bad\n")]
    );
}

#[test]
fn stage_with_pipe_ignores_its_stdout_plan() {
    let outputs = vec![Some(msg("x".to_string()))];
    let plan = conf("f", OutputMode::File, "", OutputMode::Default);
    let writes = stage_deliveries(outputs, plan, Some(PipeEnd::Write(3)));
    assert_eq!(writes, vec![write(Sink::Pipe(PipeEnd::Write(3)), "x\n")]);
}

#[test]
fn stage_without_pipe_follows_its_plan() {
    let outputs = vec![Some(msg("x".to_string()))];
    let plan = conf("f", OutputMode::FileAppend, "", OutputMode::Default);
    let writes = stage_deliveries(outputs, plan, None);
    assert_eq!(
        writes,
        vec![write(Sink::Append("f".to_string()), ""), write(Sink::Append("f".to_string()), "x\n")]
    );
}

#[test]
fn records_and_writes_can_be_cloned() {
    let record = msg("a".to_string());
    assert_eq!(record.clone(), record);
    let w = write(Sink::Truncate("f".to_string()), "t");
    assert_eq!(w.clone(), w);
    assert_eq!(Sink::Pipe(PipeEnd::Read(1)).clone(), Sink::Pipe(PipeEnd::Read(1)));
    assert_eq!(Sink::Stdout.clone(), Sink::Stdout);
    assert_eq!(Sink::Stderr.clone(), Sink::Stderr);
    assert_eq!(Sink::Append("a".to_string()).clone(), Sink::Append("a".to_string()));
}
