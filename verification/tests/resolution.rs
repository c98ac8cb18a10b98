use settlers4_widescreen_tool::resolution::{
    closest_resolution_index, find_closest_resolution, known_gog_s4_exe_hashes, res_default,
    resolutions,
};

#[test]
fn test_resolution_name() {
    assert_eq!(resolutions(Vec::new(), Vec::new(), Vec::new())[6].name(), "1920×1080 (16:9)");
}

#[test]
fn test_find_closest_resolution() {
    // Test exact match
    let res = find_closest_resolution(1920, 1080, Vec::new(), Vec::new(), Vec::new());
    assert_eq!(res.width, 1920);
    assert_eq!(res.height, 1080);

    // Test close match
    let res = find_closest_resolution(1900, 1060, Vec::new(), Vec::new(), Vec::new());
    assert_eq!(res.width, 1920);
    assert_eq!(res.height, 1080);

    // Test 16:9 aspect ratio preference
    let res = find_closest_resolution(2560, 1440, Vec::new(), Vec::new(), Vec::new());
    assert_eq!(res.aspect_ratio, "16:9");
}

#[test]
fn test_known_exe_hashes_count() {
    assert_eq!(known_gog_s4_exe_hashes().len(), 1);
}

#[test]
fn every_preset_is_its_own_closest() {
    for (i, res) in resolutions(Vec::new(), Vec::new(), Vec::new()).iter().enumerate() {
        assert_eq!(closest_resolution_index(res.width, res.height), i);
    }
}

#[test]
fn zero_height_target_picks_the_first_preset() {
    assert_eq!(closest_resolution_index(1920, 0), 0);
    assert_eq!(closest_resolution_index(0, 0), 0);
}

#[test]
fn aspect_ratio_outweighs_size() {
    // 1680×1050 is 16:10; 1920×1200 shares that ratio but is farther in size.
    assert_eq!(find_closest_resolution(1700, 1062, Vec::new(), Vec::new(), Vec::new()).width, 1680);
    // A 4:3 target lands on the nearest ratio among the presets (17:10 of 1024×600 is farther).
    let res = find_closest_resolution(1600, 1200, Vec::new(), Vec::new(), Vec::new());
    assert_eq!(res.aspect_ratio, "16:10");
}

#[test]
fn default_resolution_is_vanilla() {
    let res = res_default(vec![1, 2, 3]);
    assert_eq!(res.name(), "1024×768 (4:3)");
    assert_eq!(res.dll_sha1, "F25CA243F617BB626614EFA8AB611509C971E6C4");
    assert_eq!(res.dll_data, vec![1, 2, 3]);
}

#[test]
fn preset_names() {
    let names: Vec<String> = resolutions(Vec::new(), Vec::new(), Vec::new()).iter().map(|r| r.name()).collect();
    assert_eq!(
        names,
        vec![
            "1024×600 (17:10)",
            "1280×720 (16:9)",
            "1280×800 (16:10)",
            "1366×768 (16:9)",
            "1440×900 (16:10)",
            "1680×1050 (16:10)",
            "1920×1080 (16:9)",
            "1920×1200 (16:10)",
        ]
    );
}

#[test]
fn preset_images_go_to_their_presets() {
    let presets = resolutions(vec![1], vec![2], vec![3]);
    let images: Vec<Vec<u8>> = presets.iter().map(|r| r.dll_data.clone()).collect();
    assert_eq!(
        images,
        vec![vec![1], vec![], vec![], vec![], vec![], vec![2], vec![3], vec![]]
    );
    let res = find_closest_resolution(1920, 1080, vec![1], vec![2], vec![3]);
    assert_eq!((res.width, res.height, res.dll_data), (1920, 1080, vec![3]));
}
