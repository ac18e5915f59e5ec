use custom_alias::config_paths::{
    fish_conf_dir, fish_conf_entries, get_backup_dir, get_config_files, get_write_target,
    is_fish_file,
};
use custom_alias::types::ShellType;

fn home() -> Option<String> {
    Some("/home/u".to_string())
}

fn strings(v: &[&str]) -> Vec<String> {
    v.iter().map(|s| s.to_string()).collect()
}

#[test]
fn bash_files_in_home() {
    let files = get_config_files(&ShellType::Bash, home(), None, None, &[], &[], false, false);
    assert_eq!(files, strings(&["/home/u/.bashrc", "/home/u/.bash_profile", "/home/u/.bash_aliases"]));
}

#[test]
fn bash_files_on_macos_add_profile() {
    let files = get_config_files(&ShellType::Bash, home(), None, None, &[], &[], false, true);
    assert_eq!(files.len(), 4);
    assert_eq!(files[3], "/home/u/.profile");
}

#[test]
fn zsh_files_in_home() {
    let files = get_config_files(&ShellType::Zsh, home(), None, None, &[], &[], false, false);
    assert_eq!(files, strings(&["/home/u/.zshrc", "/home/u/.zshenv"]));
}

#[test]
fn no_files_without_home() {
    for shell in [ShellType::Bash, ShellType::Zsh, ShellType::Fish, ShellType::PowerShell] {
        assert!(get_config_files(&shell, None, Some("/cfg".to_string()), None, &[], &[], false, false)
            .is_empty());
        assert_eq!(get_write_target(&shell, None, Some("/cfg".to_string()), None, false), None);
    }
}

#[test]
fn fish_files_with_conf_d_entries() {
    let paths = strings(&["/c/fish/conf.d/a.fish", "/c/fish/conf.d/b.txt", "/c/fish/conf.d/.fish", "/c/fish/conf.d/z.fish"]);
    let names = strings(&["a.fish", "b.txt", ".fish", "z.fish"]);
    let files = get_config_files(&ShellType::Fish, home(), Some("/c".to_string()), None, &paths, &names, false, false);
    assert_eq!(files, strings(&["/c/fish/config.fish", "/c/fish/conf.d/a.fish", "/c/fish/conf.d/z.fish"]));
}

#[test]
fn fish_falls_back_to_dot_config() {
    let files = get_config_files(&ShellType::Fish, home(), None, None, &[], &[], false, false);
    assert_eq!(files, strings(&["/home/u/.config/fish/config.fish"]));
    assert_eq!(fish_conf_dir("/home/u", None), "/home/u/.config/fish/conf.d");
}

#[test]
fn conf_d_entries_of_other_shells_are_ignored() {
    let paths = strings(&["/c/fish/conf.d/a.fish"]);
    let names = strings(&["a.fish"]);
    let files = get_config_files(&ShellType::Zsh, home(), None, None, &paths, &names, false, false);
    assert_eq!(files.len(), 2);
}

#[test]
fn powershell_profiles() {
    let docs = Some("/docs".to_string());
    let on_windows = get_config_files(&ShellType::PowerShell, home(), None, docs.clone(), &[], &[], true, false);
    assert_eq!(on_windows.len(), 2);
    assert!(on_windows[0].starts_with("/docs"));
    assert!(on_windows[0].ends_with("Microsoft.PowerShell_profile.ps1"));
    assert!(on_windows[1].contains("WindowsPowerShell"));
    assert!(get_config_files(&ShellType::PowerShell, home(), None, None, &[], &[], true, false).is_empty());
    let elsewhere = get_config_files(&ShellType::PowerShell, home(), Some("/c".to_string()), docs, &[], &[], false, false);
    assert_eq!(elsewhere, strings(&["/c/powershell/profile.ps1"]));
}

#[test]
fn write_targets() {
    let c = Some("/c".to_string());
    assert_eq!(get_write_target(&ShellType::Bash, home(), c.clone(), None, false), Some("/home/u/.bashrc".to_string()));
    assert_eq!(get_write_target(&ShellType::Zsh, home(), c.clone(), None, false), Some("/home/u/.zshrc".to_string()));
    assert_eq!(
        get_write_target(&ShellType::Fish, home(), c.clone(), None, false),
        Some("/c/fish/conf.d/custom-alias.fish".to_string())
    );
    assert_eq!(
        get_write_target(&ShellType::Fish, home(), None, None, false),
        Some("/home/u/.config/fish/conf.d/custom-alias.fish".to_string())
    );
    assert_eq!(
        get_write_target(&ShellType::PowerShell, home(), c.clone(), None, false),
        Some("/c/powershell/profile.ps1".to_string())
    );
    assert_eq!(get_write_target(&ShellType::PowerShell, home(), c, None, true), None);
}

#[test]
fn backup_directory() {
    assert_eq!(get_backup_dir(Some("/c".to_string())), Some("/c/custom-alias/backups".to_string()));
    assert_eq!(get_backup_dir(None), None);
}

#[test]
fn fish_extension() {
    assert!(is_fish_file("config.fish"));
    assert!(is_fish_file("a.b.fish"));
    assert!(!is_fish_file(".fish"));
    assert!(!is_fish_file("fish"));
    assert!(!is_fish_file("a.fishy"));
    assert!(!is_fish_file("a.fish.bak"));
    assert!(!is_fish_file(".."));
    assert_eq!(
        fish_conf_entries(&strings(&["p1", "p2"]), &strings(&["x.fish", "y.sh"])),
        strings(&["p1"])
    );
}

#[test]
fn write_target_is_among_config_files() {
    let c = Some("/c".to_string());
    for shell in [ShellType::Bash, ShellType::Zsh, ShellType::PowerShell] {
        let files = get_config_files(&shell, home(), c.clone(), None, &[], &[], false, false);
        assert_eq!(get_write_target(&shell, home(), c.clone(), None, false), Some(files[0].clone()));
    }
    let target = get_write_target(&ShellType::Fish, home(), c.clone(), None, false).unwrap();
    assert!(target.starts_with(&fish_conf_dir("/home/u", c)));
    assert!(is_fish_file("custom-alias.fish"));
}
