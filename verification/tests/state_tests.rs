use vamp::parsing::{plan_command, CommandPlan};
use vamp::state::{
    alias, alias_lines, create_alias, create_variable, get_alias, lookup_variable, AliasOutcome,
    ShellState, Table,
};

fn strings(v: &[&str]) -> Vec<String> {
    v.iter().map(|s| s.to_string()).collect()
}

#[test]
fn table_read_after_write() {
    let mut t = Table::new();
    assert_eq!(t.get(&"a".to_string()), None);
    t.insert("a".to_string(), "1".to_string());
    t.insert("b".to_string(), "2".to_string());
    t.insert("a".to_string(), "3".to_string());
    assert_eq!(t.get(&"a".to_string()), Some("3".to_string()));
    assert_eq!(t.get(&"b".to_string()), Some("2".to_string()));
    assert_eq!(t.len(), 2);
    assert_eq!(t.entry(0), ("a".to_string(), "3".to_string()));
}

#[test]
fn alias_defines_then_lists() {
    let mut st = ShellState::new();
    match alias(&mut st, &strings(&["ll=\"ls", "-la\"", "g=\"git\""])) {
        AliasOutcome::Defined => {}
        AliasOutcome::Listing(_) => panic!("expected definitions"),
    }
    assert_eq!(get_alias(&st, "ll"), Some("ls -la".to_string()));
    assert_eq!(get_alias(&st, "g"), Some("git".to_string()));
    assert_eq!(get_alias(&st, "x"), None);
    match alias(&mut st, &strings(&[])) {
        AliasOutcome::Listing(lines) => {
            assert_eq!(lines, vec!["alias ll='ls -la'", "alias g='git'"]);
        }
        AliasOutcome::Defined => panic!("expected a listing"),
    }
}

#[test]
fn alias_redefinition_keeps_the_last() {
    let mut st = ShellState::new();
    create_alias(&mut st, &vec![("a".to_string(), "1".to_string()), ("a".to_string(), "2".to_string())]);
    assert_eq!(get_alias(&st, "a"), Some("2".to_string()));
    assert_eq!(alias_lines(&st.aliases), vec!["alias a='2'"]);
}

#[test]
fn variables_and_environment() {
    let mut st = ShellState::new();
    create_variable(&mut st, "x", "42");
    assert_eq!(lookup_variable(&st, "x", None), "42");
    assert_eq!(lookup_variable(&st, "x", Some("env".to_string())), "env");
    assert_eq!(lookup_variable(&st, "y", None), "");
}

#[test]
fn assignment_plans_strip_quotes() {
    let mut st = ShellState::new();
    assert!(matches!(plan_command("x='a b'", &mut st), Some(CommandPlan::Assigned)));
    assert_eq!(lookup_variable(&st, "x", None), "a b");
    assert!(matches!(plan_command("y=\"q\"", &mut st), Some(CommandPlan::Assigned)));
    assert_eq!(lookup_variable(&st, "y", None), "q");
    assert!(matches!(plan_command("z='half", &mut st), Some(CommandPlan::Assigned)));
    assert_eq!(lookup_variable(&st, "z", None), "'half");
}

#[test]
fn builtins_are_recognised() {
    let mut st = ShellState::new();
    match plan_command("cd /tmp", &mut st).unwrap() {
        CommandPlan::Cd(a) => assert_eq!(a, vec!["/tmp"]),
        _ => panic!("expected cd"),
    }
    assert!(matches!(plan_command("exit", &mut st), Some(CommandPlan::Exit)));
    assert!(matches!(plan_command("   ", &mut st), Some(CommandPlan::Nothing)));
    assert!(matches!(plan_command("alias l=\"ls\"", &mut st), Some(CommandPlan::Alias(AliasOutcome::Defined))));
    match plan_command("l -a  b", &mut st).unwrap() {
        CommandPlan::Run(p, a) => {
            assert_eq!(p, "ls");
            assert_eq!(a, vec!["-a", "b"]);
        }
        _ => panic!("expected a program"),
    }
}

#[test]
fn a_lone_quote_has_no_plan() {
    let mut st = ShellState::new();
    assert!(vamp::parsing::plan_command("x='", &mut st).is_none());
    assert_eq!(lookup_variable(&st, "x", None), "");
    assert!(matches!(vamp::parsing::plan_command("x=''", &mut st), Some(CommandPlan::Assigned)));
    assert_eq!(lookup_variable(&st, "x", None), "");
}
