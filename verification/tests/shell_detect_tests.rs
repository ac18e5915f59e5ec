use custom_alias::alias_runtime::runtime_query_arguments;
use custom_alias::shell_detect::{candidate_binaries, first_path_line, first_present, is_default_shell};
use custom_alias::types::ShellType;

#[test]
fn candidates_per_platform() {
    assert_eq!(
        candidate_binaries(&ShellType::Zsh, false),
        vec!["/bin/zsh", "/usr/local/bin/zsh", "/opt/homebrew/bin/zsh"]
    );
    assert!(candidate_binaries(&ShellType::Zsh, true).is_empty());
    assert_eq!(
        candidate_binaries(&ShellType::Fish, true),
        vec!["C:\\Program Files\\fish\\bin\\fish.exe"]
    );
}

#[test]
fn first_present_candidate_wins() {
    let c = candidate_binaries(&ShellType::Bash, false);
    assert_eq!(first_present(&c, &[false, true, true]), Some("/usr/local/bin/bash".to_string()));
    assert_eq!(first_present(&c, &[false, false, false]), None);
}

#[test]
fn default_shell_by_name() {
    assert!(is_default_shell("/bin/zsh", &ShellType::Zsh));
    assert!(!is_default_shell("/bin/zsh", &ShellType::Bash));
    assert!(is_default_shell("/usr/bin/fish", &ShellType::Fish));
    assert!(!is_default_shell("", &ShellType::PowerShell));
    assert_eq!(ShellType::PowerShell.name(), "powershell");
}

#[test]
fn lookup_output_first_line() {
    assert_eq!(first_path_line("/usr/bin/fish\n/bin/fish\n"), Some("/usr/bin/fish".to_string()));
    assert_eq!(first_path_line("  \n"), None);
    assert_eq!(first_path_line(""), None);
}

#[test]
fn runtime_query_arguments_per_shell() {
    assert_eq!(runtime_query_arguments(&ShellType::Bash), vec!["-ic", "alias"]);
    assert_eq!(runtime_query_arguments(&ShellType::Fish), vec!["-c", "alias"]);
    assert_eq!(runtime_query_arguments(&ShellType::PowerShell).len(), 3);
}
