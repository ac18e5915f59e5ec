use custom_alias::alias_runtime::{
    parse_bash_runtime_line, parse_fish_runtime_line, parse_powershell_runtime_line,
    parse_runtime_output, parse_zsh_runtime_line, poll_step, ChildState, PollAction,
    POLL_INTERVAL_MS, QUERY_TIMEOUT_NANOS,
};
use custom_alias::types::ShellType;

#[test]
fn test_parse_bash_runtime() {
    assert_eq!(
        parse_bash_runtime_line("alias gs='git status'"),
        Some(("gs".to_string(), "git status".to_string()))
    );
}

#[test]
fn test_parse_zsh_runtime() {
    assert_eq!(
        parse_zsh_runtime_line("gs='git status'"),
        Some(("gs".to_string(), "git status".to_string()))
    );
    assert_eq!(
        parse_zsh_runtime_line("ll=ls"),
        Some(("ll".to_string(), "ls".to_string()))
    );
}

#[test]
fn test_parse_fish_runtime() {
    assert_eq!(
        parse_fish_runtime_line("alias gs 'git status'"),
        Some(("gs".to_string(), "git status".to_string()))
    );
}

#[test]
fn runtime_lines_without_their_shape_give_nothing() {
    assert_eq!(parse_bash_runtime_line("gs='git status'"), None);
    assert_eq!(parse_zsh_runtime_line("no equals sign"), None);
    assert_eq!(parse_fish_runtime_line("alias gs"), None);
    assert_eq!(parse_powershell_runtime_line("=x"), None);
    assert_eq!(parse_powershell_runtime_line("x= "), None);
}

#[test]
fn runtime_quotes_and_spaces() {
    assert_eq!(
        parse_zsh_runtime_line("x=\"a b\""),
        Some(("x".to_string(), "a b".to_string()))
    );
    assert_eq!(
        parse_zsh_runtime_line("q='"),
        Some(("q".to_string(), "'".to_string()))
    );
    assert_eq!(
        parse_zsh_runtime_line("e=a=b"),
        Some(("e".to_string(), "a=b".to_string()))
    );
    assert_eq!(
        parse_powershell_runtime_line(" gci = Get-ChildItem "),
        Some(("gci".to_string(), "Get-ChildItem".to_string()))
    );
    assert_eq!(
        parse_fish_runtime_line("alias ll \"ls -l\"  "),
        Some(("ll".to_string(), "ls -l".to_string()))
    );
}

#[test]
fn runtime_output_skips_blank_and_foreign_lines() {
    let output = "alias a='x'\n\n   \nnot an alias\n  alias b=y  \r\n";
    let aliases = parse_runtime_output(output, &ShellType::Bash);
    assert_eq!(aliases.len(), 2);
    assert_eq!(aliases[0].name, "a");
    assert_eq!(aliases[0].command, "x");
    assert_eq!(aliases[1].name, "b");
    assert_eq!(aliases[1].command, "y");
    assert_eq!(aliases[1].shell, ShellType::Bash);
}

#[test]
fn waiting_for_the_shell() {
    assert_eq!(QUERY_TIMEOUT_NANOS, 3_000_000_000);
    assert_eq!(POLL_INTERVAL_MS, 50);
    assert_eq!(poll_step(ChildState::Exited, 0), PollAction::Collect);
    assert_eq!(poll_step(ChildState::Exited, 9_000_000_000), PollAction::Collect);
    assert_eq!(poll_step(ChildState::Failed, 0), PollAction::GiveUp);
    assert_eq!(poll_step(ChildState::Running, 0), PollAction::Sleep);
    assert_eq!(poll_step(ChildState::Running, 3_000_000_000), PollAction::Sleep);
    assert_eq!(poll_step(ChildState::Running, 3_000_000_001), PollAction::Kill);
}
