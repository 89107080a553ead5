use belt::common::factorio::Candidate;
use belt::common::platform::{
    check_sanitizer, default_user_data_dirs, find_mod_directory, join_path, mod_directory_candidates,
    sanitizer_candidates, save_file_candidates, TargetOs,
};

#[test]
fn user_data_dirs_per_os() {
    assert_eq!(
        default_user_data_dirs(TargetOs::Linux, Some("/home/u")),
        vec!["/home/u/.factorio", "/home/u/.var/app/com.valvesoftware.Steam/.factorio"]
    );
    assert_eq!(default_user_data_dirs(TargetOs::Windows, Some("C:\\Users\\u")), vec!["C:\\Users\\u\\AppData/Roaming/Factorio"]);
    assert_eq!(default_user_data_dirs(TargetOs::MacOs, Some("/Users/u/")), vec!["/Users/u/Library/Application Support/factorio"]);
    assert!(default_user_data_dirs(TargetOs::Linux, None).is_empty());
}

#[test]
fn joins_like_path_join() {
    for (base, rel) in [("/a", "b"), ("/a/", "b"), ("", "b"), ("a", "b/c")] {
        let std_join = std::path::Path::new(base).join(rel).to_string_lossy().into_owned();
        assert_eq!(join_path(TargetOs::Linux, base, rel), std_join);
    }
}

#[test]
fn places_under_user_data() {
    let dirs = vec!["/d".to_string()];
    assert_eq!(sanitizer_candidates(TargetOs::Linux, &dirs), vec!["/d/script-output/belt"]);
    assert_eq!(save_file_candidates(TargetOs::Linux, &dirs, "_autosave-x"), vec!["/d/saves/_autosave-x.zip"]);
    assert_eq!(mod_directory_candidates(TargetOs::Linux, &dirs), vec!["/d/mods"]);
    let found = vec![Candidate { path: "/d/mods".into(), exists: true }];
    assert_eq!(find_mod_directory(&found).as_deref(), Some("/d/mods"));
    assert!(check_sanitizer(&[Candidate { path: "/x".into(), exists: false }]).is_none());
}
