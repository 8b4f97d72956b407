use rv_core::relative_path::make_relative;

#[test]
fn relative_path_basic() {
    assert_eq!(make_relative("C:\\a\\b\\c", "C:\\a\\b\\d\\e"), "..\\d\\e");
}

#[test]
fn relative_path_other_drive_is_unchanged() {
    assert_eq!(make_relative("C:\\a\\b", "D:\\a\\b\\c"), "D:\\a\\b\\c");
}

#[test]
fn relative_path_no_common_root() {
    assert_eq!(make_relative("x\\y", "z\\w"), "z\\w");
}

#[test]
fn relative_path_case_and_separators() {
    assert_eq!(make_relative("c:/Roms/Set", "C:\\roms\\set\\game.zip"), "game.zip");
    assert_eq!(make_relative("C:\\a\\.\\b", "C:\\a\\b\\..\\c"), "c");
}

#[test]
fn unc_server_and_share_form_the_prefix() {
    assert_eq!(make_relative("\\\\srv\\sh\\a", "\\\\srv\\sh\\b"), "\\\\srv\\sh\\b");
    assert_eq!(make_relative("\\\\srv\\sh\\x\\a", "\\\\srv\\sh\\x\\b\\c"), "..\\b\\c");
    assert_eq!(make_relative("\\\\srv\\sh\\x", "\\\\srv\\other\\x\\b"), "\\\\srv\\other\\x\\b");
    assert_eq!(make_relative("\\\\srv\\sh\\x", "C:\\x\\b"), "C:\\x\\b");
    assert_eq!(make_relative("//srv/sh/x/a", "//srv/sh/x/b"), "..\\b");
}
