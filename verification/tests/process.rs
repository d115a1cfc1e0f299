use minishell::output::{OutputMsg, OutputMsgType, PipeEnd};
use minishell::process::{cmd_run, command_not_found, ChildSpec, Stdio};
use minishell::redirect::{OutputConf, OutputMode};

fn strings(words: &[&str]) -> Vec<String> {
    words.iter().map(|w| w.to_string()).collect()
}

fn conf(out: &str, out_mode: OutputMode, err: &str, err_mode: OutputMode) -> OutputConf {
    OutputConf {
        std_out: out.to_string(),
        std_out_mode: out_mode,
        std_err: err.to_string(),
        std_err_mode: err_mode,
    }
}

#[test]
fn child_inherits_by_default() {
    let plan = conf("", OutputMode::Default, "", OutputMode::Default);
    let child = cmd_run("ls", &strings(&["-l", "/"]), &plan, None, None);
    assert_eq!(
        child,
        ChildSpec {
            program: "ls".to_string(),
            args: strings(&["-l", "/"]),
            stdin: Stdio::Inherit,
            stdout: Stdio::Inherit,
            stderr: Stdio::Inherit,
        }
    );
}

#[test]
fn child_follows_the_plan() {
    let plan = conf("o", OutputMode::File, "e", OutputMode::FileAppend);
    let child = cmd_run("ls", &strings(&[]), &plan, None, None);
    assert_eq!(child.stdin, Stdio::Inherit);
    assert_eq!(child.stdout, Stdio::Truncate("o".to_string()));
    assert_eq!(child.stderr, Stdio::Append("e".to_string()));
    let plan = conf("o", OutputMode::FileAppend, "e", OutputMode::File);
    let child = cmd_run("ls", &strings(&[]), &plan, None, None);
    assert_eq!(child.stdout, Stdio::Append("o".to_string()));
    assert_eq!(child.stderr, Stdio::Truncate("e".to_string()));
}

#[test]
fn pipe_ends_are_attached() {
    let plan = conf("", OutputMode::Default, "", OutputMode::Default);
    let child = cmd_run("cat", &strings(&[]), &plan, Some(PipeEnd::Read(0)), Some(PipeEnd::Write(1)));
    assert_eq!(child.stdin, Stdio::Pipe(PipeEnd::Read(0)));
    assert_eq!(child.stdout, Stdio::Pipe(PipeEnd::Write(1)));
    assert_eq!(child.stderr, Stdio::Inherit);
}

#[test]
fn pipe_goes_before_a_stdout_redirection() {
    let plan = conf("o", OutputMode::File, "e", OutputMode::File);
    let child = cmd_run("cat", &strings(&[]), &plan, None, Some(PipeEnd::Write(0)));
    assert_eq!(child.stdout, Stdio::Pipe(PipeEnd::Write(0)));
    assert_eq!(child.stderr, Stdio::Truncate("e".to_string()));
}

#[test]
fn command_not_found_names_the_command() {
    assert_eq!(
        command_not_found("frobnicate"),
        OutputMsg { message: "frobnicate: command not found".to_string(), msg_type: OutputMsgType::StdErr }
    );
    assert_eq!(
        command_not_found(""),
        OutputMsg { message: ": command not found".to_string(), msg_type: OutputMsgType::StdErr }
    );
}
