use settlers4_widescreen_tool::dynamic_patcher::{
    patch_dll_dynamic, read_dll_resolution, PatchError, ReadDllError, HEIGHT_OFFSET, MIN_DLL_LEN,
    WIDTH_OFFSET,
};

/// An image laid out like the vanilla `GfxEngine.dll` (292 KB, the operands at their offsets
/// holding 1024 and 768); its other bytes are zero.
fn vanilla_layout_image() -> Vec<u8> {
    let mut image = vec![0u8; 292 * 1024];
    image[WIDTH_OFFSET..WIDTH_OFFSET + 4].copy_from_slice(&1024u32.to_le_bytes());
    image[HEIGHT_OFFSET..HEIGHT_OFFSET + 4].copy_from_slice(&768u32.to_le_bytes());
    image
}

#[test]
fn test_patch_dll_dynamic() {
    let base_dll = vanilla_layout_image();

    // Patch to 2560×1440 (ultrawide QHD)
    let patched = patch_dll_dynamic(&base_dll, 2560, 1440).unwrap();

    let (width, height) = read_dll_resolution(&patched).unwrap();
    assert_eq!(width, 2560);
    assert_eq!(height, 1440);
}

#[test]
fn test_patch_existing_resolutions() {
    let base_dll = vanilla_layout_image();

    let resolutions = [
        (1024, 600),
        (1280, 720),
        (1280, 800),
        (1366, 768),
        (1440, 900),
        (1680, 1050),
        (1920, 1080),
        (1920, 1200),
    ];

    for (width, height) in resolutions {
        let patched = patch_dll_dynamic(&base_dll, width, height).unwrap();
        let (read_w, read_h) = read_dll_resolution(&patched).unwrap();
        assert_eq!(read_w, width, "Width mismatch for {}×{}", width, height);
        assert_eq!(read_h, height, "Height mismatch for {}×{}", width, height);
    }
}

#[test]
fn test_patch_8k_resolution() {
    let base_dll = vanilla_layout_image();

    let patched = patch_dll_dynamic(&base_dll, 7680, 4320).unwrap();
    let (width, height) = read_dll_resolution(&patched).unwrap();
    assert_eq!(width, 7680);
    assert_eq!(height, 4320);
}

#[test]
fn test_invalid_resolutions() {
    let base_dll = vanilla_layout_image();

    // Too small
    assert!(patch_dll_dynamic(&base_dll, 640, 480).is_err());

    // Too large
    assert!(patch_dll_dynamic(&base_dll, 10000, 10000).is_err());
}

#[test]
fn test_dynamic_patch_only_changes_expected_bytes() {
    let base_dll = vanilla_layout_image();
    let patched = patch_dll_dynamic(&base_dll, 2560, 1440).unwrap();

    let mut differences = Vec::new();
    for (offset, (base_byte, patched_byte)) in base_dll.iter().zip(patched.iter()).enumerate() {
        if base_byte != patched_byte {
            differences.push(offset);
        }
    }

    for offset in &differences {
        let in_width_range = *offset >= 67214 && *offset <= 67217;
        let in_height_range = *offset >= 67219 && *offset <= 67222;
        assert!(
            in_width_range || in_height_range,
            "Byte changed at unexpected offset 0x{:X} ({})",
            offset,
            offset
        );
    }

    assert!(!differences.is_empty(), "No bytes changed - patching failed!");
    assert!(differences.len() <= 8, "Too many bytes changed: {} (max 8)", differences.len());
}

#[test]
fn patch_writes_little_endian_operands() {
    let base_dll = vanilla_layout_image();
    let patched = patch_dll_dynamic(&base_dll, 2560, 1440).unwrap();
    assert_eq!(&patched[67214..67218], &[0x00, 0x0A, 0x00, 0x00]);
    assert_eq!(&patched[67219..67223], &[0xA0, 0x05, 0x00, 0x00]);
    assert_eq!(patched.len(), base_dll.len());
    assert_eq!(patched[67218], base_dll[67218]);
}

#[test]
fn patch_accepts_the_range_bounds() {
    let base_dll = vanilla_layout_image();
    assert!(patch_dll_dynamic(&base_dll, 800, 600).is_ok());
    assert!(patch_dll_dynamic(&base_dll, 7680, 4320).is_ok());
    assert_eq!(patch_dll_dynamic(&base_dll, 799, 600), Err(PatchError::WidthOutOfRange(799)));
    assert_eq!(patch_dll_dynamic(&base_dll, 7681, 600), Err(PatchError::WidthOutOfRange(7681)));
    assert_eq!(patch_dll_dynamic(&base_dll, 800, 599), Err(PatchError::HeightOutOfRange(599)));
    assert_eq!(patch_dll_dynamic(&base_dll, 800, 4321), Err(PatchError::HeightOutOfRange(4321)));
}

#[test]
fn patch_checks_width_before_height_before_size() {
    let tiny = vec![0u8; 16];
    assert_eq!(patch_dll_dynamic(&tiny, 640, 480), Err(PatchError::WidthOutOfRange(640)));
    assert_eq!(patch_dll_dynamic(&tiny, 1920, 480), Err(PatchError::HeightOutOfRange(480)));
    assert_eq!(patch_dll_dynamic(&tiny, 1920, 1080), Err(PatchError::DllTooSmall));
    let just_enough = vec![0u8; MIN_DLL_LEN];
    assert!(patch_dll_dynamic(&just_enough, 1920, 1080).is_ok());
    let one_short = vec![0u8; MIN_DLL_LEN - 1];
    assert_eq!(patch_dll_dynamic(&one_short, 1920, 1080), Err(PatchError::DllTooSmall));
}

#[test]
fn read_rejects_short_images() {
    assert_eq!(read_dll_resolution(&[0u8; 100]), Err(ReadDllError::DllTooSmall));
    assert_eq!(read_dll_resolution(&vanilla_layout_image()), Ok((1024, 768)));
}

#[test]
fn last_patch_wins() {
    let base_dll = vanilla_layout_image();
    let once = patch_dll_dynamic(&base_dll, 1280, 720).unwrap();
    let twice = patch_dll_dynamic(&once, 3440, 1440).unwrap();
    let direct = patch_dll_dynamic(&base_dll, 3440, 1440).unwrap();
    assert_eq!(twice, direct);
}

#[test]
fn patching_to_the_current_resolution_changes_nothing() {
    let base_dll = vanilla_layout_image();
    let same = patch_dll_dynamic(&base_dll, 1024, 768).unwrap();
    assert_eq!(same, base_dll);
}

#[test]
fn patch_error_messages() {
    assert_eq!(
        PatchError::WidthOutOfRange(640).message(),
        "Width must be between 800 and 7680 (got 640)"
    );
    assert_eq!(
        PatchError::HeightOutOfRange(10000).message(),
        "Height must be between 600 and 4320 (got 10000)"
    );
    assert_eq!(
        PatchError::DllTooSmall.message(),
        "DLL file is too small (expected at least 67223 bytes)"
    );
    assert_eq!(ReadDllError::DllTooSmall.message(), "DLL file is too small");
}
