use px::errors::IoErrorKind;
use px::files::{clipboard_text, read_failed, removal_for, rm_paths_given, rm_result, unreadable_path, Removal};

#[test]
fn rm_needs_paths() {
    assert_eq!(rm_paths_given(0), Err("rm: give at least one path".to_string()));
    assert_eq!(rm_paths_given(2), Ok(()));
}

#[test]
fn rm_counts_failures() {
    assert_eq!(rm_result(0), Ok(()));
    assert_eq!(rm_result(3), Err("rm: 3 path(s) failed".to_string()));
    assert_eq!(rm_result(12), Err("rm: 12 path(s) failed".to_string()));
}

#[test]
fn removal_kinds() {
    assert_eq!(removal_for(true, false), Removal::Tree);
    assert_eq!(removal_for(true, true), Removal::Entry);
    assert_eq!(removal_for(false, false), Removal::Entry);
    assert_eq!(removal_for(false, true), Removal::Entry);
    assert_eq!(unreadable_path(), "not found or no permission");
}

#[test]
fn clipboard_text_decodes_utf8() {
    assert_eq!(clipboard_text("héllo\n".as_bytes().to_vec(), "a.txt"), Ok("héllo\n".to_string()));
    assert_eq!(clipboard_text(Vec::new(), "e.txt"), Ok(String::new()));
}

#[test]
fn clipboard_text_rejects_binary() {
    assert_eq!(clipboard_text(vec![0x66, 0xff, 0x00], "notes.bin"), Err("cp: notes.bin: not a text file".to_string()));
}

#[test]
fn read_failure_message() {
    assert_eq!(read_failed("a.txt", IoErrorKind::PermissionDenied), "cp: a.txt: permission denied");
    assert_eq!(read_failed("b", IoErrorKind::Other), "cp: b: failed");
}
