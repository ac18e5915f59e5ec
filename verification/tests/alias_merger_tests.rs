use custom_alias::alias_merger::merge_aliases;
use custom_alias::types::{Alias, AliasSource, RuntimeAlias, ShellType};

fn file_alias(name: &str, command: &str, line: usize) -> Alias {
    Alias {
        name: name.to_string(),
        command: command.to_string(),
        shell: ShellType::Zsh,
        source_file: "/home/.zshrc".to_string(),
        line_number: line,
        group: None,
        is_managed: false,
    }
}

fn runtime_alias(name: &str, command: &str, shell: ShellType) -> RuntimeAlias {
    RuntimeAlias { name: name.to_string(), command: command.to_string(), shell }
}

#[test]
fn test_merge_both() {
    let file_aliases = vec![Alias {
        name: "gs".to_string(),
        command: "git status".to_string(),
        shell: ShellType::Zsh,
        source_file: "/home/.zshrc".to_string(),
        line_number: 10,
        group: Some("git".to_string()),
        is_managed: true,
    }];
    let runtime_aliases = vec![RuntimeAlias {
        name: "gs".to_string(),
        command: "git status".to_string(),
        shell: ShellType::Zsh,
    }];

    let merged = merge_aliases(file_aliases, runtime_aliases);
    assert_eq!(merged.len(), 1);
    assert!(matches!(merged[0].source, AliasSource::Both { .. }));
}

#[test]
fn test_merge_runtime_only() {
    let file_aliases = vec![];
    let runtime_aliases = vec![RuntimeAlias {
        name: "ll".to_string(),
        command: "ls -la".to_string(),
        shell: ShellType::Zsh,
    }];

    let merged = merge_aliases(file_aliases, runtime_aliases);
    assert_eq!(merged.len(), 1);
    assert!(matches!(merged[0].source, AliasSource::RuntimeOnly));
    assert!(!merged[0].is_managed);
}

#[test]
fn merge_sorts_by_name_and_prefers_runtime_command() {
    let files = vec![file_alias("zz", "z", 1), file_alias("aa", "old", 2), file_alias("mm", "m", 3)];
    let runtime = vec![
        runtime_alias("aa", "new", ShellType::Zsh),
        runtime_alias("bb", "b1", ShellType::Bash),
        runtime_alias("bb", "b2", ShellType::Zsh),
    ];
    let merged = merge_aliases(files, runtime);
    let names: Vec<&str> = merged.iter().map(|m| m.name.as_str()).collect();
    assert_eq!(names, vec!["aa", "bb", "mm", "zz"]);
    assert_eq!(merged[0].command, "new");
    match &merged[0].source {
        AliasSource::Both { path, line } => {
            assert_eq!(path, "/home/.zshrc");
            assert_eq!(*line, 2);
        }
        other => panic!("unexpected source {:?}", other),
    }
    assert_eq!(merged[1].command, "b2");
    assert_eq!(merged[1].shell, ShellType::Bash);
    assert!(matches!(merged[1].source, AliasSource::RuntimeOnly));
    assert!(matches!(merged[2].source, AliasSource::ConfigFile { line: 3, .. }));
}

#[test]
fn merge_keeps_last_file_alias_of_a_name() {
    let mut second = file_alias("x", "second", 7);
    second.group = Some("g".to_string());
    second.is_managed = true;
    let merged = merge_aliases(vec![file_alias("x", "first", 1), second], vec![]);
    assert_eq!(merged.len(), 1);
    assert_eq!(merged[0].command, "second");
    assert_eq!(merged[0].group.as_deref(), Some("g"));
    assert!(merged[0].is_managed);
    assert!(matches!(merged[0].source, AliasSource::ConfigFile { line: 7, .. }));
}
