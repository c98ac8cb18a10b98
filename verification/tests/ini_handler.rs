use settlers4_widescreen_tool::ini_handler::{
    extract_value, read_resolution, update_ini_values, update_resolution,
    update_resolution_values, ConfigError,
};
use settlers4_widescreen_tool::resolution::{res_default, resolutions};

const GAME_SETTINGS: &str = "//\n// Automatically generated file. Do not edit!\n// \n\n[GAMESETTINGS]\n{\nWindowWidth = 1024\nWindowHeight = 768\nFullscreen = 0\nScreenmode = 0\n}\n";

const INDENTED_SETTINGS: &str = "//\n// Automatically generated file. Do not edit!\n// \n\n[GAMESETTINGS]\n{\n    WindowWidth = 1024\n    WindowHeight = 768\n    Fullscreen = 0\n    Screenmode = 0\n}\n";

#[test]
fn test_update_and_read_resolution() {
    let resolution = &resolutions(Vec::new(), Vec::new(), Vec::new())[6]; // 1920×1080

    let content = update_resolution(GAME_SETTINGS, resolution).unwrap();

    let (width, height) = read_resolution(&content).unwrap();
    assert_eq!(width, 1920);
    assert_eq!(height, 1080);

    assert!(content.contains("[GAMESETTINGS]"));
    assert!(content.contains("{"));
    assert!(content.contains("}"));
}

#[test]
fn test_extract_value() {
    let content = "    WindowWidth = 1024\n    WindowHeight = 768\n";

    assert_eq!(extract_value(content, "WindowWidth"), Some("1024".to_string()));
    assert_eq!(extract_value(content, "WindowHeight"), Some("768".to_string()));
    assert_eq!(extract_value(content, "NonExistent"), None);
}

#[test]
fn test_update_ini_values() {
    let content = "[GAMESETTINGS]\n{\n    WindowWidth = 800\n    WindowHeight = 600\n}\n";

    let updates = [
        ("WindowWidth", "1920".to_string()),
        ("WindowHeight", "1080".to_string()),
    ];

    let result = update_ini_values(content, &updates).unwrap();

    assert!(result.contains("WindowWidth = 1920"));
    assert!(result.contains("WindowHeight = 1080"));
    assert!(!result.contains("800"));
    assert!(!result.contains("600"));
}

#[test]
fn test_restore_to_default() {
    let settings = "[GAMESETTINGS]\n{\nWindowWidth = 1024\nWindowHeight = 768\nFullscreen = 0\nScreenmode = 0\n}\n";
    let patched = update_resolution(settings, &resolutions(Vec::new(), Vec::new(), Vec::new())[6]).unwrap();
    let restored = update_resolution(&patched, &res_default(Vec::new())).unwrap();
    let (width, height) = read_resolution(&restored).unwrap();
    assert_eq!(width, 1024);
    assert_eq!(height, 768);
}

#[test]
fn update_writes_the_exact_text() {
    let updated = update_resolution_values(INDENTED_SETTINGS, 2560, 1440).unwrap();
    assert_eq!(
        updated,
        "//\n// Automatically generated file. Do not edit!\n// \n\n[GAMESETTINGS]\n{\n    WindowWidth = 2560\n    WindowHeight = 1440\n    Fullscreen = 1\n    Screenmode = 2\n}\n"
    );
}

#[test]
fn unindented_keys_are_not_found_and_get_added() {
    let updated = update_resolution_values(GAME_SETTINGS, 1920, 1080).unwrap();
    assert_eq!(
        updated,
        "//\n// Automatically generated file. Do not edit!\n// \n\n[GAMESETTINGS]\n{\nWindowWidth = 1024\nWindowHeight = 768\nFullscreen = 0\nScreenmode = 0\n    WindowWidth = 1920\n    WindowHeight = 1080\n    Fullscreen = 1\n    Screenmode = 2\n}\n"
    );
}

#[test]
fn missing_keys_are_added_before_the_last_brace() {
    let content = "[GAMESETTINGS]\n{\n    WindowWidth = 800\n}\n";
    let updated = update_resolution_values(content, 1920, 1080).unwrap();
    assert_eq!(
        updated,
        "[GAMESETTINGS]\n{\n    WindowWidth = 1920\n    WindowHeight = 1080\n    Fullscreen = 1\n    Screenmode = 2\n}\n"
    );
    assert_eq!(read_resolution(&updated), Ok((1920, 1080)));
}

#[test]
fn crlf_value_line_loses_its_carriage_return() {
    let content = "[GAMESETTINGS]\r\n{\r\n    WindowWidth = 800\r\n    WindowHeight = 600\r\n}\r\n";
    let updated = update_ini_values(content, &[("WindowWidth", "1920".to_string())]).unwrap();
    assert_eq!(updated, "[GAMESETTINGS]\r\n{\r\n    WindowWidth = 1920\n    WindowHeight = 600\r\n}\r\n");
}

#[test]
fn adding_a_key_without_a_closing_brace_fails() {
    let content = "[GAMESETTINGS]\n    WindowWidth = 800\n";
    assert_eq!(
        update_resolution_values(content, 1920, 1080),
        Err(ConfigError::MissingClosingBrace)
    );
    // replacing an existing key needs no brace
    assert_eq!(
        update_ini_values(content, &[("WindowWidth", "1024".to_string())]),
        Ok("[GAMESETTINGS]\n    WindowWidth = 1024\n".to_string())
    );
}

#[test]
fn read_resolution_reports_each_error() {
    assert_eq!(read_resolution("{\n}\n"), Err(ConfigError::WidthNotFound));
    assert_eq!(read_resolution("    WindowWidth = 1\n"), Err(ConfigError::HeightNotFound));
    assert_eq!(
        read_resolution("    WindowWidth = wide\n    WindowHeight = 768\n"),
        Err(ConfigError::InvalidWidth)
    );
    assert_eq!(
        read_resolution("    WindowWidth = 1024\n    WindowHeight = -1\n"),
        Err(ConfigError::InvalidHeight)
    );
    assert_eq!(
        read_resolution("    WindowWidth = 4294967296\n    WindowHeight = 768\n"),
        Err(ConfigError::InvalidWidth)
    );
}

#[test]
fn read_resolution_trims_spaces_and_quotes() {
    assert_eq!(
        read_resolution("    WindowWidth = \"1280\"  \n    WindowHeight =  +720\t\n"),
        Ok((1280, 720))
    );
    assert_eq!(extract_value("    Key = \"\" x \"\"\n", "Key"), Some(" x ".to_string()));
}

#[test]
fn only_the_first_occurrence_counts() {
    let content = "    WindowWidth = 1\n    WindowWidth = 2\n    WindowHeight = 3\n";
    assert_eq!(read_resolution(content), Ok((1, 3)));
    let updated = update_ini_values(content, &[("WindowWidth", "9".to_string())]).unwrap();
    assert_eq!(updated, "    WindowWidth = 9\n    WindowWidth = 2\n    WindowHeight = 3\n");
}

#[test]
fn a_key_needs_its_four_spaces() {
    assert_eq!(extract_value("WindowWidth = 1024\n", "WindowWidth"), None);
    assert_eq!(extract_value("  WindowWidth = 1024\n", "WindowWidth"), None);
}

#[test]
fn config_error_messages() {
    assert_eq!(
        ConfigError::MissingClosingBrace.message(),
        "Could not find closing brace in config file"
    );
    assert_eq!(ConfigError::WidthNotFound.message(), "WindowWidth not found in config file");
    assert_eq!(ConfigError::HeightNotFound.message(), "WindowHeight not found in config file");
    assert_eq!(ConfigError::InvalidWidth.message(), "Failed to parse WindowWidth");
    assert_eq!(ConfigError::InvalidHeight.message(), "Failed to parse WindowHeight");
}

#[test]
fn added_line_can_complete_an_earlier_pattern() {
    // The text before the last brace ends with the key's pattern minus its final space: the
    // added line then completes that earlier occurrence, which is the one that is read.
    let content = "{\n    WindowWidth =}";
    let updated = update_ini_values(content, &[("WindowWidth", "1920".to_string())]).unwrap();
    assert_eq!(updated, "{\n    WindowWidth =    WindowWidth = 1920\n}");
    assert_eq!(
        extract_value(&updated, "WindowWidth"),
        Some("WindowWidth = 1920".to_string())
    );
}

#[test]
fn resolution_reads_back_with_some_keys_missing() {
    let content = "[GAMESETTINGS]\n{\n    Fullscreen = 0\n    WindowHeight = 600\n}\n";
    let updated = update_resolution_values(content, 3440, 1440).unwrap();
    assert_eq!(read_resolution(&updated), Ok((3440, 1440)));
    assert_eq!(
        updated,
        "[GAMESETTINGS]\n{\n    Fullscreen = 1\n    WindowHeight = 1440\n    WindowWidth = 3440\n    Screenmode = 2\n}\n"
    );
}

#[test]
fn a_key_inside_another_line_is_lost() {
    // the width's pattern sits inside the height's line, so setting the height overwrites it
    let content = "    WindowHeight = 5    WindowWidth = 7\n}\n";
    let updated = update_resolution_values(content, 1920, 1080).unwrap();
    assert_eq!(read_resolution(&updated), Err(ConfigError::WidthNotFound));
}

#[test]
fn updates_apply_left_to_right() {
    let u1 = [("WindowWidth", "1920".to_string())];
    let u2 = [("Fullscreen", "1".to_string()), ("WindowHeight", "1080".to_string())];
    let both = [u1[0].clone(), u2[0].clone(), u2[1].clone()];
    let first = update_ini_values(INDENTED_SETTINGS, &u1).unwrap();
    assert_eq!(update_ini_values(INDENTED_SETTINGS, &both), update_ini_values(&first, &u2));
}

#[test]
fn writing_a_resolution_twice_changes_nothing_more() {
    let once = update_resolution_values(GAME_SETTINGS, 2560, 1440).unwrap();
    let twice = update_resolution_values(&once, 2560, 1440).unwrap();
    assert_eq!(once, twice);
}

#[test]
fn overlapping_lines_are_not_idempotent() {
    // the pattern of `B` lies inside the line of `A`: setting `A` after `B` removes `B`,
    // so a second pass adds it again
    let content = "    A = 1    B = 2\n}";
    let updates = [("B", "y".to_string()), ("A", "x".to_string())];
    let once = update_ini_values(content, &updates).unwrap();
    assert_eq!(once, "    A = x\n}");
    let twice = update_ini_values(&once, &updates).unwrap();
    assert_eq!(twice, "    A = x\n    B = y\n}");
}
