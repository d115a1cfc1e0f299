use minishell::builtins::builtin_names;
use minishell::completion::{get_executables, is_executable, Host, PathEntry, ShellCompleter};

fn strings(words: &[&str]) -> Vec<String> {
    words.iter().map(|w| w.to_string()).collect()
}

fn entry(name: &str, is_file: bool, mode: u32) -> PathEntry {
    let extension = name.rsplit_once('.').map(|(_, e)| e.to_string());
    PathEntry { name: name.to_string(), is_file, mode, extension }
}

#[test]
fn posix_executable_has_an_execute_bit() {
    assert!(is_executable(&entry("a", true, 0o755), Host::Posix));
    assert!(is_executable(&entry("a", true, 0o100), Host::Posix));
    assert!(is_executable(&entry("a", true, 0o010), Host::Posix));
    assert!(is_executable(&entry("a", true, 0o001), Host::Posix));
    assert!(!is_executable(&entry("a", true, 0o644), Host::Posix));
    assert!(!is_executable(&entry("a", true, 0o4000), Host::Posix));
    assert!(!is_executable(&entry("a", true, 0), Host::Posix));
}

#[test]
fn only_regular_files_are_executables() {
    assert!(!is_executable(&entry("dir", false, 0o755), Host::Posix));
    assert!(!is_executable(&entry("dir.exe", false, 0o755), Host::Windows));
}

#[test]
fn windows_executable_has_an_extension() {
    for name in ["a.exe", "a.EXE", "a.Exe", "b.bat", "b.BAT", "c.cmd", "c.CmD"] {
        assert!(is_executable(&entry(name, true, 0), Host::Windows));
    }
    for name in ["a", "a.txt", "a.ex", "a.exee", "a.com", "a.exe.bak", "a.bmd"] {
        assert!(!is_executable(&entry(name, true, 0o755), Host::Windows));
    }
}

#[test]
fn executables_are_collected_once_each() {
    let entries = vec![
        entry("ls", true, 0o755),
        entry("readme", true, 0o644),
        entry("cat", true, 0o755),
        entry("lib", false, 0o755),
        entry("ls", true, 0o700),
        entry("cat", true, 0o644),
    ];
    let mut names = get_executables(&entries, Host::Posix);
    names.sort();
    assert_eq!(names, strings(&["cat", "ls"]));
}

#[test]
fn no_entries_no_executables() {
    assert_eq!(get_executables(&vec![], Host::Posix), Vec::<String>::new());
}

#[test]
fn candidates_are_sorted() {
    let index = ShellCompleter::new(strings(&["cat", "ls", "cargo", "cal"]), &builtin_names());
    assert_eq!(index.complete("c", 1), (0, strings(&["cal", "cargo", "cat", "cd"])));
    assert_eq!(index.complete("ca", 2), (0, strings(&["cal", "cargo", "cat"])));
}

#[test]
fn single_candidate_gets_a_space() {
    let index = ShellCompleter::new(strings(&["cat", "ls"]), &builtin_names());
    assert_eq!(index.complete("ec", 2), (0, strings(&["echo "])));
    assert_eq!(index.complete("l", 1), (0, strings(&["ls "])));
    assert_eq!(index.complete("echo", 4), (0, strings(&["echo "])));
}

#[test]
fn no_candidate() {
    let index = ShellCompleter::new(strings(&["cat", "ls"]), &builtin_names());
    assert_eq!(index.complete("zz", 2), (0, strings(&[])));
    assert_eq!(index.complete("echoo", 5), (0, strings(&[])));
}

#[test]
fn empty_prefix_offers_everything() {
    let index = ShellCompleter::new(strings(&["ls"]), &builtin_names());
    assert_eq!(index.complete("", 0), (0, strings(&["cd", "echo", "exit", "history", "ls", "pwd", "type"])));
}

#[test]
fn a_name_held_twice_is_offered_once() {
    let index = ShellCompleter::new(strings(&["echo", "ls", "ls", "echo"]), &builtin_names());
    assert_eq!(index.complete("e", 1), (0, strings(&["echo", "exit"])));
    assert_eq!(index.complete("l", 1), (0, strings(&["ls "])));
}

#[test]
fn empty_index_offers_nothing() {
    let index = ShellCompleter::new(vec![], &vec![]);
    assert_eq!(index.complete("", 0), (0, strings(&[])));
}
