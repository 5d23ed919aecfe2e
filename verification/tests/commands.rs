use trash_rs::command::{any_flag_holds, operands_of, plan_command, split_args, CliAction, Function, Topic};

fn args(xs: &[&str]) -> Vec<String> {
    xs.iter().map(|x| x.to_string()).collect()
}

#[test]
fn function_names() {
    assert!(matches!(Function::from_str("delete"), Ok(Function::Delete)));
    assert!(matches!(Function::from_str("list"), Ok(Function::List)));
    assert!(matches!(Function::from_str("empty"), Ok(Function::Empty)));
    assert!(matches!(Function::from_str("change-dir"), Ok(Function::ChangeDir(None))));
    assert!(matches!(Function::from_str("restore"), Ok(Function::Restore(None))));
    assert!(matches!(Function::from_str("clean"), Ok(Function::Clean)));
}

#[test]
fn unknown_function_names() {
    assert!(Function::from_str("Delete").is_err());
    assert!(Function::from_str("").is_err());
    assert!(Function::from_str("delete ").is_err());
    assert!(Function::from_str("-h").is_err());
}

#[test]
fn split_args_separates_flags() {
    let a = args(&["trash-rs", "-h", "delete", "x", "--o", "y"]);
    let s = split_args(&a);
    assert_eq!(s.flags, args(&["-h", "--o"]));
    assert_eq!(s.rest, args(&["trash-rs", "delete", "x", "y"]));
    assert!(s.help);
    assert_eq!(s.flags.len() + s.rest.len(), a.len());
}

#[test]
fn help_is_only_h_or_help() {
    assert!(split_args(&args(&["t", "list", "--help"])).help);
    assert!(!split_args(&args(&["t", "list", "-help"])).help);
    assert!(!split_args(&args(&["t", "list", "h"])).help);
}

#[test]
fn flags_holding_a_character() {
    assert!(any_flag_holds(&args(&["-x", "-cd"]), 'd'));
    assert!(!any_flag_holds(&args(&["-x"]), 'd'));
    assert!(!any_flag_holds(&args(&[]), 'o'));
}

#[test]
fn operands_skip_program_and_function() {
    assert_eq!(operands_of(&args(&["t", "delete", "a", "b"])), args(&["a", "b"]));
    assert_eq!(operands_of(&args(&["t"])), args(&[]));
    assert_eq!(operands_of(&args(&["t", "delete"])), args(&[]));
}

fn plan(xs: &[&str]) -> CliAction {
    let a = args(xs);
    let s = split_args(&a);
    plan_command(&a, &s)
}

#[test]
fn planning_commands() {
    assert!(matches!(plan(&["t"]), CliAction::MissingFunction));
    assert!(matches!(plan(&["t", "delete", "a"]), CliAction::Delete));
    assert!(matches!(plan(&["t", "delete", "-h"]), CliAction::Help(Topic::Delete)));
    assert!(matches!(plan(&["t", "list"]), CliAction::List));
    assert!(matches!(plan(&["t", "list", "--help"]), CliAction::Help(Topic::List)));
    assert!(matches!(plan(&["t", "empty", "x"]), CliAction::Empty));
    assert!(matches!(plan(&["t", "empty", "-h"]), CliAction::Help(Topic::Empty)));
    assert!(matches!(plan(&["t", "change-dir", "d"]), CliAction::ChangeDir));
    assert!(matches!(plan(&["t", "change-dir", "-h"]), CliAction::Help(Topic::ChangeDir)));
    assert!(matches!(plan(&["t", "restore"]), CliAction::Restore));
    assert!(matches!(plan(&["t", "restore", "-h"]), CliAction::Help(Topic::Restore)));
    assert!(matches!(plan(&["t", "bogus"]), CliAction::NotAFunction));
    assert!(matches!(plan(&["t", "bogus", "-h"]), CliAction::Manual));
    assert!(matches!(plan(&["t", "-h"]), CliAction::Manual));
}

#[test]
fn planning_clean() {
    assert!(matches!(plan(&["t", "clean", "-h"]), CliAction::Help(Topic::Clean)));
    assert!(matches!(plan(&["t", "clean"]), CliAction::CleanUsage));
    assert!(matches!(plan(&["t", "clean", "-x"]), CliAction::CleanUsage));
    assert!(matches!(
        plan(&["t", "clean", "-c"]),
        CliAction::Clean { recreate_config: true, recreate_dirs: false }
    ));
    assert!(matches!(
        plan(&["t", "clean", "-d"]),
        CliAction::Clean { recreate_config: false, recreate_dirs: true }
    ));
    assert!(matches!(
        plan(&["t", "clean", "-cd"]),
        CliAction::Clean { recreate_config: true, recreate_dirs: true }
    ));
    assert!(matches!(
        plan(&["t", "clean", "-d", "-c"]),
        CliAction::Clean { recreate_config: true, recreate_dirs: true }
    ));
}
