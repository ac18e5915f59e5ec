use custom_alias::alias_writer::{
    alias_name_pattern, command_extraction_fails, extract_command_from_line, find_unmanaged_alias_line,
    format_alias_line, has_managed_alias, insert_into_managed_section, is_comment,
    is_in_managed_block, plan_add, plan_delete, plan_update, remove_alias_lines,
};
use custom_alias::error::AppError;
use custom_alias::types::{AliasInput, ShellType};

fn input(name: &str, command: &str, shell: ShellType, group: Option<&str>) -> AliasInput {
    AliasInput {
        name: name.to_string(),
        command: command.to_string(),
        shell,
        group: group.map(|g| g.to_string()),
    }
}

#[test]
fn format_lines_per_shell() {
    assert_eq!(format_alias_line(&ShellType::Bash, "gs", "git status"), "alias gs='git status'");
    assert_eq!(format_alias_line(&ShellType::Zsh, "q", "echo 'hi'"), "alias q='echo '\\''hi'\\'''");
    assert_eq!(format_alias_line(&ShellType::Fish, "q", "it's"), "alias q 'it\\'s'");
    assert_eq!(
        format_alias_line(&ShellType::PowerShell, "gp", "git push"),
        "function gp { git push $args }"
    );
    assert_eq!(
        format_alias_line(&ShellType::PowerShell, "gs", "Get-GitStatus"),
        "Set-Alias -Name gs -Value Get-GitStatus"
    );
}

#[test]
fn name_patterns_per_shell() {
    assert_eq!(alias_name_pattern(&ShellType::Bash, "gs"), "alias gs=");
    assert_eq!(alias_name_pattern(&ShellType::Fish, "gs"), "alias gs ");
    assert_eq!(alias_name_pattern(&ShellType::PowerShell, "gs"), "gs");
}

#[test]
fn managed_alias_is_found_only_inside_block() {
    let content = "alias gs='x'\n# >>> custom-alias managed >>>\nalias gp='git push'\n# <<< custom-alias managed <<<\n";
    assert!(has_managed_alias(content, "gp", &ShellType::Bash));
    assert!(!has_managed_alias(content, "gs", &ShellType::Bash));
    assert!(is_in_managed_block(content, 1));
    assert!(is_in_managed_block(content, 2));
    assert!(!is_in_managed_block(content, 3));
    assert!(!is_in_managed_block(content, 0));
    assert!(!is_in_managed_block(content, 10));
}

#[test]
fn comments_are_recognised() {
    assert!(is_comment("  # alias x='y'"));
    assert!(!is_comment("alias x='y' # note"));
    assert!(!is_comment(""));
}

#[test]
fn commands_are_read_back() {
    assert_eq!(
        extract_command_from_line("alias gs='git status'", &ShellType::Bash),
        Some("git status".to_string())
    );
    assert_eq!(
        extract_command_from_line("alias gs=\"git status\"  ", &ShellType::Zsh),
        Some("git status".to_string())
    );
    assert_eq!(extract_command_from_line("alias ll=ls", &ShellType::Bash), Some("ls".to_string()));
    assert_eq!(extract_command_from_line("no equals", &ShellType::Bash), None);
    assert_eq!(
        extract_command_from_line("  alias gs 'git status'", &ShellType::Fish),
        Some("git status".to_string())
    );
    assert_eq!(extract_command_from_line("alias gs", &ShellType::Fish), None);
    assert_eq!(
        extract_command_from_line("Set-Alias -Name gs -Value Get-GitStatus", &ShellType::PowerShell),
        Some("Get-GitStatus".to_string())
    );
    assert_eq!(
        extract_command_from_line("function gp { git push $args }", &ShellType::PowerShell),
        Some("git push $args".to_string())
    );
    assert_eq!(extract_command_from_line("gp = x", &ShellType::PowerShell), None);
    assert!(command_extraction_fails("function x } {", &ShellType::PowerShell));
    assert!(!command_extraction_fails("function x { y }", &ShellType::PowerShell));
}

#[test]
fn insert_creates_block_when_missing() {
    let text = insert_into_managed_section("alias a='b'", "alias gs='git status'", &Some("git".to_string()), &ShellType::Bash);
    assert_eq!(
        text,
        "alias a='b'\n\n# >>> custom-alias managed >>>\n# group: git\nalias gs='git status'\n# <<< custom-alias managed <<<\n"
    );
    let empty = insert_into_managed_section("", "alias x='y'", &None, &ShellType::Zsh);
    assert_eq!(empty, "\n# >>> custom-alias managed >>>\nalias x='y'\n# <<< custom-alias managed <<<\n");
}

#[test]
fn insert_goes_before_block_end() {
    let content = "top\n# >>> custom-alias managed >>>\nalias a='b'\n# <<< custom-alias managed <<<\nbottom\n";
    let text = insert_into_managed_section(content, "alias c='d'", &None, &ShellType::Bash);
    assert_eq!(
        text,
        "top\n# >>> custom-alias managed >>>\nalias a='b'\nalias c='d'\n# <<< custom-alias managed <<<\nbottom"
    );
}

#[test]
fn plan_add_reports_duplicates() {
    let content = "# >>> custom-alias managed >>>\nalias gs='git status'\n# <<< custom-alias managed <<<\n";
    match plan_add(content, &input("gs", "git stash", ShellType::Bash, None)) {
        Err(AppError::DuplicateAlias { name, shell }) => {
            assert_eq!(name, "gs");
            assert_eq!(shell, "bash");
        }
        other => panic!("unexpected {:?}", other),
    }
    let (text, line) = plan_add(content, &input("gp", "git push", ShellType::Bash, Some("git"))).unwrap();
    assert_eq!(
        text,
        "# >>> custom-alias managed >>>\nalias gs='git status'\n# group: git\nalias gp='git push'\n# <<< custom-alias managed <<<"
    );
    assert_eq!(line, 4);
}

#[test]
fn plan_add_then_delete_round_trip() {
    let (text, line) = plan_add("export A=1\n", &input("ll", "ls -la", ShellType::Fish, None)).unwrap();
    assert_eq!(line, 4);
    assert!(has_managed_alias(&text, "ll", &ShellType::Fish));
    let after = plan_delete(&text, "ll", &ShellType::Fish).unwrap();
    assert_eq!(after, "export A=1\n\n# >>> custom-alias managed >>>\n# <<< custom-alias managed <<<");
}

#[test]
fn plan_update_replaces_one_line() {
    let content = "# >>> custom-alias managed >>>\nalias gs='git status'\nalias gp='git push'\n# <<< custom-alias managed <<<\n";
    let (text, line) = plan_update(content, "gp", &input("gpf", "git push --force", ShellType::Bash, None)).unwrap();
    assert_eq!(
        text,
        "# >>> custom-alias managed >>>\nalias gs='git status'\nalias gpf='git push --force'\n# <<< custom-alias managed <<<"
    );
    assert_eq!(line, 3);
    match plan_update(content, "zz", &input("zz", "x", ShellType::Bash, None)) {
        Err(AppError::ManagedBlockError { detail }) => {
            assert_eq!(detail, "Alias 'zz' not found in managed section")
        }
        other => panic!("unexpected {:?}", other),
    }
    match plan_delete("alias gs='x'\n", "gs", &ShellType::Bash) {
        Err(AppError::ManagedBlockError { detail }) => {
            assert_eq!(detail, "Alias 'gs' not found in managed section")
        }
        other => panic!("unexpected {:?}", other),
    }
}

#[test]
fn import_helpers_find_and_remove_outside_lines() {
    let content = "# alias gs='old'\nalias gs='git status'\n# >>> custom-alias managed >>>\nalias gp='git push'\n# <<< custom-alias managed <<<\n";
    assert_eq!(
        find_unmanaged_alias_line(content, "gs", &ShellType::Bash),
        Some("# alias gs='old'".to_string())
    );
    assert_eq!(find_unmanaged_alias_line(content, "gp", &ShellType::Bash), None);
    assert_eq!(
        remove_alias_lines(content, "gs", &ShellType::Bash),
        "# alias gs='old'\n# >>> custom-alias managed >>>\nalias gp='git push'\n# <<< custom-alias managed <<<"
    );
}
