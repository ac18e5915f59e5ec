use custom_alias::alias_parser::parse_content;
use custom_alias::types::ShellType;

#[test]
fn test_parse_bash_simple() {
    let content = r#"
alias gs='git status'
alias gp="git push"
alias ll=ls
"#;
    let aliases = parse_content(content, &ShellType::Bash, "/test/.bashrc");
    assert_eq!(aliases.len(), 3);
    assert_eq!(aliases[0].name, "gs");
    assert_eq!(aliases[0].command, "git status");
    assert_eq!(aliases[1].name, "gp");
    assert_eq!(aliases[1].command, "git push");
    assert_eq!(aliases[2].name, "ll");
    assert_eq!(aliases[2].command, "ls");
}

#[test]
fn test_parse_managed_block() {
    let content = r#"
alias existing='echo hello'
# >>> custom-alias managed >>>
# group: git
alias gs='git status'
alias gp='git push'
# <<< custom-alias managed <<<
alias other='echo other'
"#;
    let aliases = parse_content(content, &ShellType::Zsh, "/test/.zshrc");
    assert_eq!(aliases.len(), 4);
    assert!(!aliases[0].is_managed);
    assert!(aliases[1].is_managed);
    assert_eq!(aliases[1].group.as_deref(), Some("git"));
    assert!(aliases[2].is_managed);
    assert!(!aliases[3].is_managed);
}

#[test]
fn test_parse_fish() {
    let content = r#"
alias gs 'git status'
abbr -a gp git push
"#;
    let aliases = parse_content(content, &ShellType::Fish, "/test/config.fish");
    assert_eq!(aliases.len(), 2);
    assert_eq!(aliases[0].name, "gs");
    assert_eq!(aliases[0].command, "git status");
    assert_eq!(aliases[1].name, "gp");
}

#[test]
fn test_parse_powershell() {
    let content = r#"
Set-Alias -Name gs -Value Get-GitStatus
function gp { git push $args }
"#;
    let aliases = parse_content(content, &ShellType::PowerShell, "/test/profile.ps1");
    assert_eq!(aliases.len(), 2);
    assert_eq!(aliases[0].name, "gs");
    assert_eq!(aliases[0].command, "Get-GitStatus");
    assert_eq!(aliases[1].name, "gp");
}

#[test]
fn parse_records_line_numbers_and_source() {
    let content = "alias a='x'\r\n\nalias b=\"y z\"\n";
    let aliases = parse_content(content, &ShellType::Bash, "/home/u/.bashrc");
    assert_eq!(aliases.len(), 2);
    assert_eq!(aliases[0].line_number, 1);
    assert_eq!(aliases[0].command, "x");
    assert_eq!(aliases[1].line_number, 3);
    assert_eq!(aliases[1].command, "y z");
    assert_eq!(aliases[1].source_file, "/home/u/.bashrc");
    assert_eq!(aliases[1].shell, ShellType::Bash);
    assert!(aliases[1].group.is_none());
}

#[test]
fn parse_group_only_inside_managed_block() {
    let content = "# group: outside\nalias a='x'\n# >>> custom-alias managed >>>\n# group:  tools  \nalias b='y'\n# <<< custom-alias managed <<<\nalias c='z'\n";
    let aliases = parse_content(content, &ShellType::Bash, "f");
    assert_eq!(aliases.len(), 3);
    assert_eq!(aliases[0].group, None);
    assert!(!aliases[0].is_managed);
    assert_eq!(aliases[1].group.as_deref(), Some("tools"));
    assert!(aliases[1].is_managed);
    assert_eq!(aliases[2].group, None);
}

#[test]
fn parse_powershell_function_body_is_trimmed() {
    let content = "function gp {   git push   }\nnew-alias ll Get-ChildItem\n";
    let aliases = parse_content(content, &ShellType::PowerShell, "p");
    assert_eq!(aliases.len(), 2);
    assert_eq!(aliases[0].command, "git push");
    assert_eq!(aliases[1].name, "ll");
    assert_eq!(aliases[1].command, "Get-ChildItem");
}

#[test]
fn parse_ignores_other_lines() {
    let content = "export PATH=/bin\n# alias x='y'\n";
    assert!(parse_content(content, &ShellType::Zsh, "f").is_empty());
    assert!(parse_content("", &ShellType::Fish, "f").is_empty());
}

use custom_alias::alias_parser::{aliases_from_readings, read_line, LineReading};

fn reading(opens: bool, closes: bool, group: Option<&str>, alias: Option<(&str, &str)>) -> LineReading {
    LineReading {
        opens_block: opens,
        closes_block: closes,
        group: group.map(|g| g.to_string()),
        alias: alias.map(|(n, c)| (n.to_string(), c.to_string())),
    }
}

#[test]
fn readings_drive_the_managed_state() {
    let readings = vec![
        reading(false, false, Some("ignored"), Some(("a", "x"))),
        reading(true, false, None, None),
        reading(false, false, Some("g1"), Some(("not", "used"))),
        reading(false, false, None, Some(("b", "y"))),
        reading(true, true, None, None),
        reading(false, false, None, Some(("c", "z"))),
        reading(false, true, None, None),
        reading(false, false, None, Some(("d", "w"))),
    ];
    let aliases = aliases_from_readings(&readings, &ShellType::Fish, "src");
    let names: Vec<&str> = aliases.iter().map(|a| a.name.as_str()).collect();
    assert_eq!(names, vec!["a", "b", "c", "d"]);
    assert_eq!(aliases[0].group, None);
    assert!(!aliases[0].is_managed);
    assert_eq!(aliases[1].group.as_deref(), Some("g1"));
    assert_eq!(aliases[1].line_number, 4);
    assert!(aliases[2].is_managed);
    assert_eq!(aliases[2].group, None);
    assert!(!aliases[3].is_managed);
    assert_eq!(aliases[3].line_number, 8);
}

#[test]
fn read_line_reports_markers_groups_and_aliases() {
    let r = read_line(&ShellType::Bash, "# >>> custom-alias managed >>>");
    assert!(r.opens_block && !r.closes_block);
    let r = read_line(&ShellType::Bash, "# group: tools ");
    assert_eq!(r.group.as_deref(), Some("tools"));
    assert!(r.alias.is_none());
    let r = read_line(&ShellType::Bash, "  alias k=kubectl  ");
    assert_eq!(r.alias, Some(("k".to_string(), "kubectl".to_string())));
}
