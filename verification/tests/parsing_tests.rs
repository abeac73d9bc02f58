use vamp::parsing::{decompose_command, get_args, plan_pipeline, WriteMode};
use vamp::state::ShellState;

#[test]
fn decompose_without_alias() {
    let state = ShellState::new();
    let (c, a) = decompose_command("  ls   -la  /tmp ", &state).unwrap();
    assert_eq!(c, "ls");
    assert_eq!(a, "-la /tmp");
}

#[test]
fn get_args_splits_words() {
    assert_eq!(get_args(" a  b\tc "), vec!["a", "b", "c"]);
}

#[test]
fn pipeline_with_redirection() {
    let stages = plan_pipeline("ls | grep a > out.txt").unwrap();
    assert_eq!(stages.len(), 2);
    assert_eq!(stages[0].command, "ls");
    assert!(stages[0].piped);
    assert!(stages[0].write_mode == WriteMode::Plain);
    assert_eq!(stages[1].command, "grep a ");
    assert_eq!(stages[1].file, "out.txt");
    assert!(stages[1].write_mode == WriteMode::New);
    assert!(stages[1].piped);
}

use vamp::parsing::{cd_target, expand_home, inline_output, plan_command};
use vamp::state::create_alias;

#[test]
fn decompose_expands_an_alias_once() {
    let mut state = ShellState::new();
    create_alias(&mut state, &vec![("a".to_string(), "a -v".to_string())]);
    let (c, a) = decompose_command("a x  y", &state).unwrap();
    assert_eq!(c, "a");
    assert_eq!(a, "-v x y");
}

#[test]
fn decompose_of_nothing() {
    let state = ShellState::new();
    assert_eq!(decompose_command("  ", &state), Some((String::new(), String::new())));
}

#[test]
fn arguments_are_the_remaining_words() {
    let state = ShellState::new();
    let line = " cmd  one\ttwo   three ";
    let (_, rest) = decompose_command(line, &state).unwrap();
    let words: Vec<&str> = line.split_whitespace().skip(1).collect();
    assert_eq!(get_args(&rest), words);
}

#[test]
fn comment_lines_plan_nothing() {
    assert!(plan_pipeline("# a comment").is_none());
    assert!(plan_pipeline(" # not a comment").is_some());
}

#[test]
fn redirection_stays_for_later_stages() {
    let stages = plan_pipeline("a >> log | b | c").unwrap();
    assert_eq!(stages.len(), 3);
    assert!(stages[0].write_mode == WriteMode::Append);
    assert_eq!(stages[0].file, "log");
    assert_eq!(stages[0].command, "a ");
    assert!(stages[1].write_mode == WriteMode::Append);
    assert_eq!(stages[1].file, "");
    assert!(stages[2].piped);
}

#[test]
fn single_command_is_shown() {
    let stages = plan_pipeline("  ls -la  ").unwrap();
    assert_eq!(stages.len(), 1);
    assert_eq!(stages[0].command, "ls -la");
    assert!(!stages[0].piped);
}

#[test]
fn home_is_expanded() {
    assert_eq!(expand_home("cd ~/src ~", "/home/u"), "cd /home/u/src /home/u");
    assert_eq!(expand_home("no tilde", "/home/u"), "no tilde");
}

#[test]
fn inline_output_puts_a_space_before_each_line() {
    assert_eq!(inline_output("a\nb\n"), " a b");
    assert_eq!(inline_output(""), "");
}

#[test]
fn cd_goes_home_without_arguments() {
    assert_eq!(cd_target(&vec![], "/home/u"), "/home/u");
    assert_eq!(cd_target(&vec!["/tmp".to_string(), "x".to_string()], "/home/u"), "/tmp");
}

#[test]
fn lone_quote_assignments_are_detected() {
    let mut st = ShellState::new();
    assert!(plan_command("x='", &mut st).is_none());
    assert!(plan_command("x=\"", &mut st).is_none());
    assert!(plan_command("x=''", &mut st).is_some());
    assert!(plan_command("echo '", &mut st).is_some());
}
