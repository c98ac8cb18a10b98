use settlers4_widescreen_tool::patcher::{
    is_game_running, is_matching_process_name, process_entry_is_game, status_name, ProcessEntry,
};

fn process(dir_name: &str) -> ProcessEntry {
    ProcessEntry {
        dir_name: dir_name.to_string(),
        comm: None,
        cmdline: None,
        status: None,
        exe_file_name: None,
    }
}

#[test]
fn test_is_game_running_in_detects_process() {
    let mut entry = process("12345");
    entry.comm = Some(b"S4_Main.exe\n".to_vec());
    entry.cmdline = Some(b"/fake/path/S4.exe\0--flag".to_vec());
    entry.status = Some("Name:\tS4_Main.exe\n".to_string());

    assert!(is_game_running(&[process("1"), entry]));
}

#[test]
fn each_source_alone_is_enough() {
    let mut comm = process("10");
    comm.comm = Some(b"s4.EXE\n".to_vec());
    assert!(process_entry_is_game(&comm));

    let mut cmdline = process("11");
    cmdline.cmdline = Some(b"C:\\x/y/S4_Main.exe\0/a\0".to_vec());
    assert!(process_entry_is_game(&cmdline));

    let mut status = process("12");
    status.status = Some("State:\tS\nName:   S4.exe  extra\nPid: 12\n".to_string());
    assert!(process_entry_is_game(&status));

    let mut exe = process("13");
    exe.exe_file_name = Some("S4_MAIN.EXE".to_string());
    assert!(process_entry_is_game(&exe));
}

#[test]
fn non_process_entries_are_ignored() {
    let mut entry = process("self");
    entry.comm = Some(b"S4.exe".to_vec());
    assert!(!process_entry_is_game(&entry));
    assert!(!is_game_running(&[entry]));
    assert!(!is_game_running(&[]));
}

#[test]
fn other_programs_do_not_match() {
    let mut entry = process("42");
    entry.comm = Some(b"bash\n".to_vec());
    entry.cmdline = Some(b"/usr/bin/S4.exe.bak\0".to_vec());
    entry.status = Some("Name:\tS4.exe2\n".to_string());
    entry.exe_file_name = Some("wine64-preloader".to_string());
    assert!(!process_entry_is_game(&entry));
}

#[test]
fn process_names_are_trimmed_and_path_stripped() {
    assert!(is_matching_process_name(b"S4.exe"));
    assert!(is_matching_process_name(b"  S4.exe\r\n\0"));
    assert!(is_matching_process_name(b"S4.exe..."));
    assert!(is_matching_process_name(b"/games/settlers/S4_Main.exe"));
    assert!(is_matching_process_name(b"/games/S4.exe/"));
    assert!(is_matching_process_name(b"/games/S4.exe/./"));
    assert!(is_matching_process_name(b"s4_main.exe"));
    assert!(is_matching_process_name(b"S4.exe/.."));
    assert!(!is_matching_process_name(b"S4.exe/../x"));
    assert!(!is_matching_process_name(b""));
    assert!(!is_matching_process_name(b"S4.ex"));
    assert!(!is_matching_process_name(b"xS4.exe"));
    assert!(!is_matching_process_name(b"S4.exe\tx"));
    assert!(!is_matching_process_name(b"S4\xff.exe"));
}

#[test]
fn status_name_takes_the_second_word_of_the_first_name_line() {
    assert_eq!(status_name("Name:\tbash\n"), Some("bash".to_string()));
    assert_eq!(status_name("Umask:\t0022\nName:  a b\nName: c\n"), Some("a".to_string()));
    assert_eq!(status_name("Name:\n"), None);
    assert_eq!(status_name("Name:x y\n"), Some("y".to_string()));
    assert_eq!(status_name("State: Name: x\n"), None);
    assert_eq!(status_name(""), None);
    assert_eq!(status_name("Name:\tS4.exe\r\n"), Some("S4.exe".to_string()));
}
