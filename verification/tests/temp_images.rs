use xiaokui_alive::images::{
    check_removable, new_temp_image_file_name, path_within, temp_dir_name, temp_image_file_name,
};

fn parts(p: &str) -> Vec<String> {
    p.split('/').map(|s| s.to_string()).collect()
}

#[test]
fn image_file_names() {
    assert_eq!(temp_dir_name(), "xiaokui_alive");
    assert_eq!(temp_image_file_name("20250101_120000_123"), "clipboard_20250101_120000_123.png");
}

#[test]
fn only_files_in_the_temp_directory_are_removed() {
    let dir = parts("/tmp/xiaokui_alive");
    assert!(path_within(&parts("/tmp/xiaokui_alive/clipboard_1.png"), &dir));
    assert!(path_within(&parts("/tmp/xiaokui_alive"), &dir));
    assert!(!path_within(&parts("/tmp/xiaokui_alive2/x.png"), &dir));
    assert!(!path_within(&parts("/tmp"), &dir));
    assert!(check_removable(&parts("/tmp/xiaokui_alive/a.png"), &dir).is_ok());
    assert_eq!(
        check_removable(&parts("/etc/passwd"), &dir).err().unwrap(),
        "Cannot delete file outside temp directory"
    );
}

#[test]
fn a_pasted_image_is_named_by_the_local_time() {
    let name = new_temp_image_file_name();
    assert!(name.starts_with("clipboard_"));
    assert!(name.ends_with(".png"));
    let stamp = &name["clipboard_".len()..name.len() - ".png".len()];
    assert_eq!(stamp.len(), "20250101_120000_123".len());
    for (i, c) in stamp.chars().enumerate() {
        if i == 8 || i == 15 {
            assert_eq!(c, '_');
        } else {
            assert!(c.is_ascii_digit());
        }
    }
}
