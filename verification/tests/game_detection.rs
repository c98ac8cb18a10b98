use settlers4_widescreen_tool::game_detection::{
    get_config_path, get_dll_path, get_exe_path, is_valid_game_directory, join_path,
    required_file_paths, resolve_game_path, validate_game_directory, DirectoryFacts, EntryFacts,
    EntryKind, GameDirError, GameSearch,
};

fn complete_dir() -> DirectoryFacts {
    DirectoryFacts { exists: true, is_dir: true, required_present: vec![true, true, true] }
}

fn empty_dir() -> DirectoryFacts {
    DirectoryFacts { exists: true, is_dir: true, required_present: vec![false, false, false] }
}

#[test]
fn test_is_valid_game_directory() {
    assert!(is_valid_game_directory(&complete_dir().required_present));
}

#[test]
fn test_is_valid_game_directory_missing_files() {
    assert!(!is_valid_game_directory(&empty_dir().required_present));
}

#[test]
fn test_get_paths() {
    let game_path = "/fake/game";

    assert_eq!(get_dll_path(game_path), "/fake/game/Exe/GfxEngine.dll");
    assert_eq!(get_config_path(game_path), "/fake/game/Config/GameSettings.cfg");
    assert_eq!(get_exe_path(game_path), "/fake/game/S4.exe");
}

#[test]
fn test_validate_game_directory() {
    assert!(validate_game_directory("/tmp/game", &complete_dir()).is_ok());
    assert!(validate_game_directory("/tmp/empty", &empty_dir()).is_err());
}

#[test]
fn test_patch_invalid_directory() {
    assert!(validate_game_directory("/tmp/empty", &empty_dir()).is_err());
}

#[test]
fn test_resolve_game_path_expands_tilde() {
    let home = "/home/settler".to_string();
    let resolved = resolve_game_path("~/Games/Settlers4", Some(home.clone()));
    assert_eq!(resolved, join_path(&home, "Games/Settlers4"));
    assert_eq!(resolved, "/home/settler/Games/Settlers4");
}

#[test]
fn test_resolve_game_path_passthrough() {
    let resolved = resolve_game_path("/opt/settlers4", Some("/home/settler".to_string()));
    assert_eq!(resolved, "/opt/settlers4");
}

#[test]
fn resolve_trims_and_handles_bare_tilde() {
    assert_eq!(resolve_game_path("  ~ \n", Some("/home/a".to_string())), "/home/a");
    assert_eq!(resolve_game_path("~", None), "~");
    assert_eq!(resolve_game_path("~/x", None), "~/x");
    assert_eq!(resolve_game_path("~user/x", Some("/home/a".to_string())), "~user/x");
    assert_eq!(resolve_game_path("~//abs", Some("/home/a".to_string())), "/abs");
    assert_eq!(resolve_game_path("~/x", Some("/home/a/".to_string())), "/home/a/x");
}

#[test]
fn join_follows_path_rules() {
    assert_eq!(join_path("/a", "b"), "/a/b");
    assert_eq!(join_path("/a/", "b"), "/a/b");
    assert_eq!(join_path("", "b"), "b");
    assert_eq!(join_path("/a", "/b"), "/b");
    assert_eq!(join_path("/a", ""), "/a/");
}

#[test]
fn validation_reports_the_first_failure() {
    let missing = DirectoryFacts { exists: false, is_dir: false, required_present: vec![false; 3] };
    assert_eq!(
        validate_game_directory("/g", &missing),
        Err(GameDirError::NotFound("/g".to_string()))
    );
    let file = DirectoryFacts { exists: true, is_dir: false, required_present: vec![false; 3] };
    assert_eq!(
        validate_game_directory("/g", &file),
        Err(GameDirError::NotADirectory("/g".to_string()))
    );
    let no_config =
        DirectoryFacts { exists: true, is_dir: true, required_present: vec![true, false, false] };
    let err = validate_game_directory("/g", &no_config).unwrap_err();
    assert_eq!(err, GameDirError::MissingFile("/g/Config/GameSettings.cfg".to_string()));
    assert_eq!(err.message(), "Required file not found: /g/Config/GameSettings.cfg");
    assert_eq!(
        GameDirError::NotFound("/x".to_string()).message(),
        "Game directory does not exist: /x"
    );
    assert_eq!(
        GameDirError::NotADirectory("/x".to_string()).message(),
        "Path is not a directory: /x"
    );
}

#[test]
fn required_paths_in_order() {
    assert_eq!(
        required_file_paths("/g"),
        vec!["/g/S4.exe", "/g/Config/GameSettings.cfg", "/g/Exe/GfxEngine.dll"]
    );
}

fn entry(path: &str, name: &str, is_file: bool, kind: EntryKind) -> EntryFacts {
    EntryFacts {
        path: path.to_string(),
        file_name: Some(name.to_string()),
        is_file,
        kind,
    }
}

#[test]
fn search_walks_breadth_first_and_finds_the_game() {
    let mut search = GameSearch::new("/home/u/Games".to_string());
    let (dir, depth) = search.next_directory().unwrap();
    assert_eq!((dir.as_str(), depth), ("/home/u/Games", 0));
    let listing = vec![
        entry("/home/u/Games/a", "a", false, EntryKind::Directory),
        entry("/home/u/Games/readme", "readme", true, EntryKind::Other),
        entry("/home/u/Games/b", "b", false, EntryKind::SymlinkToDirectory),
    ];
    assert_eq!(search.visit_directory(dir, false, &listing), None);
    let (dir, depth) = search.next_directory().unwrap();
    assert_eq!((dir.as_str(), depth), ("/home/u/Games/a", 1));
    assert_eq!(search.visit_directory(dir, false, &[]), None);
    let (dir, depth) = search.next_directory().unwrap();
    assert_eq!((dir.as_str(), depth), ("/home/u/Games/b", 1));
    let listing = vec![entry("/home/u/Games/b/S4.exe", "S4.exe", true, EntryKind::Other)];
    assert_eq!(
        search.visit_directory(dir, true, &listing),
        Some("/home/u/Games/b".to_string())
    );
}

#[test]
fn search_needs_a_complete_installation_and_a_file() {
    let mut search = GameSearch::new("/r".to_string());
    let (dir, _) = search.next_directory().unwrap();
    let exe_dir = vec![entry("/r/S4.exe", "S4.exe", false, EntryKind::Directory)];
    // a directory named S4.exe does not count, but is entered
    assert_eq!(search.visit_directory(dir, true, &exe_dir), None);
    let (dir, _) = search.next_directory().unwrap();
    assert_eq!(dir, "/r/S4.exe");
    let exe = vec![entry("/r/S4.exe/S4.exe", "S4.exe", true, EntryKind::Other)];
    // an incomplete installation does not count
    assert_eq!(search.visit_directory(dir, false, &exe), None);
    assert!(search.next_directory().is_none());
}

#[test]
fn search_stops_descending_at_depth_five() {
    let mut search = GameSearch::new("/r".to_string());
    for level in 0..=5usize {
        let (dir, depth) = search.next_directory().unwrap();
        assert_eq!(depth, level);
        let child = format!("{}/x", dir);
        let listing = vec![entry(&child, "x", false, EntryKind::Directory)];
        assert_eq!(search.visit_directory(dir, false, &listing), None);
    }
    // the directory at depth 5 is listed, but what lies below it is not entered
    assert!(search.next_directory().is_none());
}

#[test]
fn search_takes_shallower_directories_first() {
    let mut search = GameSearch::new("/r".to_string());
    let (dir, _) = search.next_directory().unwrap();
    let listing = vec![
        entry("/r/a", "a", false, EntryKind::Directory),
        entry("/r/b", "b", false, EntryKind::Directory),
    ];
    assert_eq!(search.visit_directory(dir, false, &listing), None);
    let (dir, depth) = search.next_directory().unwrap();
    assert_eq!((dir.as_str(), depth), ("/r/a", 1));
    let below_a = vec![entry("/r/a/c", "c", false, EntryKind::Directory)];
    assert_eq!(search.visit_directory(dir, false, &below_a), None);
    // /r/b, at depth 1, comes before /r/a/c, at depth 2
    assert_eq!(search.next_directory(), Some(("/r/b".to_string(), 1)));
    assert_eq!(search.visit_directory("/r/b".to_string(), false, &[]), None);
    assert_eq!(search.next_directory(), Some(("/r/a/c".to_string(), 2)));
}
