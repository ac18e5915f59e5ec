use custom_alias::alias_parser::parse_content;
use custom_alias::alias_writer::{
    alias_name_pattern, extract_command_from_line, format_alias_line, has_managed_alias, plan_add,
    plan_delete,
};
use custom_alias::error::AppError;
use custom_alias::types::{AliasInput, ShellType};

#[test]
fn written_line_holds_its_pattern() {
    for shell in [ShellType::Bash, ShellType::Zsh, ShellType::Fish, ShellType::PowerShell] {
        let line = format_alias_line(&shell, "gs", "git 'status'");
        assert!(line.contains(&alias_name_pattern(&shell, "gs")));
    }
}

#[test]
fn written_command_reads_back() {
    for shell in [ShellType::Bash, ShellType::Zsh, ShellType::Fish] {
        let line = format_alias_line(&shell, "gs", "git status --short");
        assert_eq!(extract_command_from_line(&line, &shell), Some("git status --short".to_string()));
    }
    let line = format_alias_line(&ShellType::PowerShell, "gs", "Get-GitStatus");
    assert_eq!(
        extract_command_from_line(&line, &ShellType::PowerShell),
        Some("Get-GitStatus".to_string())
    );
}

#[test]
fn added_alias_is_parsed_as_managed() {
    let input = AliasInput {
        name: "gs".to_string(),
        command: "git status".to_string(),
        shell: ShellType::Zsh,
        group: Some("git".to_string()),
    };
    let (text, line) = plan_add("alias ll='ls -l'\n", &input).unwrap();
    let parsed = parse_content(&text, &ShellType::Zsh, "/home/u/.zshrc");
    assert_eq!(parsed.len(), 2);
    assert!(!parsed[0].is_managed);
    let last = &parsed[1];
    assert_eq!(last.name, "gs");
    assert_eq!(last.command, "git status");
    assert!(last.is_managed);
    assert_eq!(last.group.as_deref(), Some("git"));
    assert_eq!(last.line_number, text.lines().count() - 1);
    assert_eq!(last.line_number, line);
}

#[test]
fn alias_added_to_existing_block_is_found_and_refused_again() {
    let content = "alias ll='ls -l'\n# >>> custom-alias managed >>>\nalias gd='git diff'\n# <<< custom-alias managed <<<\nexport X=1\n";
    let input = AliasInput {
        name: "gs".to_string(),
        command: "git status".to_string(),
        shell: ShellType::Bash,
        group: Some("git".to_string()),
    };
    assert!(!has_managed_alias(content, "gs", &ShellType::Bash));
    let (text, _) = plan_add(content, &input).unwrap();
    assert_eq!(
        text,
        "alias ll='ls -l'\n# >>> custom-alias managed >>>\nalias gd='git diff'\n# group: git\nalias gs='git status'\n# <<< custom-alias managed <<<\nexport X=1"
    );
    assert!(has_managed_alias(&text, "gs", &ShellType::Bash));
    assert!(matches!(plan_add(&text, &input), Err(AppError::DuplicateAlias { .. })));
}

#[test]
fn add_then_delete_restores_the_lines() {
    let content = "alias ll='ls -l'\n# >>> custom-alias managed >>>\nalias gd='git diff'\n# <<< custom-alias managed <<<\nexport X=1\n";
    let input = AliasInput {
        name: "gs".to_string(),
        command: "git status".to_string(),
        shell: ShellType::Fish,
        group: None,
    };
    let (text, _) = plan_add(content, &input).unwrap();
    let back = plan_delete(&text, "gs", &ShellType::Fish).unwrap();
    assert_eq!(back, content.lines().collect::<Vec<_>>().join("\n"));
}

#[test]
fn new_block_keeps_the_old_lines() {
    let content = "alias ll='ls -l'\nexport X=1";
    let input = AliasInput {
        name: "gs".to_string(),
        command: "git status".to_string(),
        shell: ShellType::Zsh,
        group: None,
    };
    let (text, _) = plan_add(content, &input).unwrap();
    let lines: Vec<&str> = text.lines().collect();
    assert_eq!(
        lines,
        vec![
            "alias ll='ls -l'",
            "export X=1",
            "",
            "# >>> custom-alias managed >>>",
            "alias gs='git status'",
            "# <<< custom-alias managed <<<",
        ]
    );
}
