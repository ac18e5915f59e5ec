use custom_alias::backup::{
    backup_file_name, backup_origin, backups_to_prune, original_name_of_backup, sort_newest_first,
};
use custom_alias::types::{BackupInfo, ShellType};

#[test]
fn backup_names_round_trip() {
    let name = backup_file_name(".zshrc", "20240101_120000");
    assert_eq!(name, ".zshrc_20240101_120000.bak");
    assert_eq!(original_name_of_backup(&name), ".zshrc");
    assert_eq!(original_name_of_backup("my_file_20240101_120000.bak"), "my_file");
    assert_eq!(original_name_of_backup("plain.bak"), "plain.bak");
    assert_eq!(original_name_of_backup("one_part.bak"), "one_part.bak");
}

#[test]
fn backup_origin_matches_first_prefix() {
    let prefixes = vec![".bashrc".to_string(), ".bash".to_string()];
    assert_eq!(backup_origin(".bashrc_1_2.bak", &prefixes), Some(".bashrc".to_string()));
    assert_eq!(backup_origin(".bash_profile_1_2.bak", &prefixes), Some(".bash".to_string()));
    assert_eq!(backup_origin(".bashrc_1_2.txt", &prefixes), None);
    assert_eq!(backup_origin(".zshrc_1_2.bak", &prefixes), None);
}

#[test]
fn pruning_keeps_the_newest() {
    let names: Vec<String> = vec!["a_1.bak", "b_1.bak", "a_2.bak", "a_3.bak", "a_4.bak"]
        .into_iter()
        .map(|s| s.to_string())
        .collect();
    let times = vec![10u128, 50, 30, 30, 20];
    assert_eq!(backups_to_prune(&names, &times, "a", 2), vec![0, 4]);
    assert_eq!(backups_to_prune(&names, &times, "a", 10), Vec::<usize>::new());
    assert_eq!(backups_to_prune(&names, &times, "a", 0), vec![0, 2, 3, 4]);
    assert_eq!(backups_to_prune(&names, &times, "a", 1), vec![0, 2, 4]);
}

fn info(path: &str, created_at: &str) -> BackupInfo {
    BackupInfo {
        path: path.to_string(),
        shell: ShellType::Bash,
        created_at: created_at.to_string(),
        original_file: ".bashrc".to_string(),
    }
}

#[test]
fn backups_are_listed_newest_first() {
    let list = vec![
        info("p1", "2024-01-01T10:00:00+00:00"),
        info("p2", "2024-03-01T10:00:00+00:00"),
        info("p3", "2024-01-01T10:00:00+00:00"),
        info("p4", ""),
        info("p5", "2024-02-01T10:00:00+00:00"),
    ];
    let sorted = sort_newest_first(&list);
    let paths: Vec<&str> = sorted.iter().map(|b| b.path.as_str()).collect();
    assert_eq!(paths, vec!["p2", "p5", "p1", "p3", "p4"]);
}

#[test]
fn ten_backups_are_kept() {
    assert_eq!(custom_alias::backup::BACKUPS_KEPT, 10);
}
