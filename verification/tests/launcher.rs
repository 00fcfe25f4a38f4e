use cce::executor::{
    choose_launch_mode, parse_windows_env_output, shell_quote, CommandExecutor, LaunchMode,
};

#[test]
fn test_executor_creation() {
    let executor = CommandExecutor;
    // Basic test to ensure the executor can be created
    // Just verify it can be instantiated
    let _ = executor;
}

#[test]
fn test_shell_quote_plain() {
    assert_eq!(shell_quote("abc"), "'abc'");
    assert_eq!(shell_quote(""), "''");
}

#[test]
fn test_shell_quote_escapes_single_quotes() {
    assert_eq!(shell_quote("a'b"), "'a'\\''b'");
    assert_eq!(shell_quote("'"), "''\\'''");
}

#[test]
fn test_build_shell_command() {
    let args = vec![String::from("--flag"), String::from("two words")];
    let cmd = CommandExecutor::build_shell_command("/cfg/dev.env", &args);
    assert_eq!(cmd, ". '/cfg/dev.env' && exec agent '--flag' 'two words'");
}

#[test]
fn test_build_shell_command_no_args() {
    let args: Vec<String> = Vec::new();
    let cmd = CommandExecutor::build_shell_command("/cfg/it's.env", &args);
    assert_eq!(cmd, ". '/cfg/it'\\''s.env' && exec agent");
}

#[test]
fn test_exec_failure_codes() {
    assert_eq!(CommandExecutor::exec_failure_code(true), 127);
    assert_eq!(CommandExecutor::exec_failure_code(false), 1);
}

#[test]
fn test_propagate_exit_status() {
    assert_eq!(CommandExecutor::propagate_exit_status(Some(0)), 0);
    assert_eq!(CommandExecutor::propagate_exit_status(Some(3)), 3);
    assert_eq!(CommandExecutor::propagate_exit_status(None), 1);
}

#[test]
fn test_choose_launch_mode() {
    assert_eq!(choose_launch_mode(true), LaunchMode::ReplaceInPlace);
    assert_eq!(choose_launch_mode(false), LaunchMode::SpawnAndWait);
}

#[test]
fn test_parse_windows_env_output_keeps_values_whole() {
    let pairs = parse_windows_env_output("A=1\nSKIPPED\nB=x=y");
    assert_eq!(pairs.len(), 2);
    assert_eq!(pairs[0].0, "A");
    assert_eq!(pairs[0].1, "1");
    assert_eq!(pairs[1].0, "B");
    assert_eq!(pairs[1].1, "x=y");
}
