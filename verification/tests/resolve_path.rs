use spritec::resolve_path::{is_absolute, resolve_path, PathStyle, ResolvePath};

fn resolve_check(base: &str, input: &str, output: &str) {
    assert_eq!(input.resolve(base), Some(String::from(output)));
}

fn resolve_check_windows(base: &str, input: &str, output: &str) {
    assert_eq!(resolve_path(input, base, PathStyle::Windows), String::from(output));
}

#[test]
fn resolve_absolute_path() {
    let input_path = "/home/yourname/spritec/sample/bigboi/test";

    let base_path = "/home/yourname/spritec/sample";
    let output_path = "/home/yourname/spritec/sample/bigboi/test";
    resolve_check(base_path, input_path, output_path);
}

#[test]
fn resolve_path_resolve_absolute_path() {
    let input_path = "C:\\user\\yourname\\spritec\\sample\\bigboi\\test";

    let base_path = "C:\\user\\yourname\\spritec\\sample";
    let output_path = "C:\\user\\yourname\\spritec\\sample\\bigboi\\test";
    resolve_check_windows(base_path, input_path, output_path);
}

#[test]
fn resolve_relative_path_forward_slash() {
    let input_path = "../../../spritec/../src/./bin";

    let base_path = "/home/yourname/spritec";
    let output_path = "/src/bin";
    resolve_check(base_path, input_path, output_path);
}

#[test]
fn resolve_path_resolve_relative_path_forward_slash() {
    let input_path = "../../../spritec/../src/./bin";

    let base_path = "C:\\user\\yourname\\spritec";
    let output_path = "C:\\src\\bin";
    resolve_check_windows(base_path, input_path, output_path);
}

#[test]
fn resolve_relative_path_backslash() {
    let input_path = "..\\..\\..\\spritec\\..\\src\\.\\bin";

    let base_path = "/home/yourname/spritec";
    let output_path = "/src/bin";
    resolve_check(base_path, input_path, output_path);
}

#[test]
fn resolve_path_resolve_relative_path_backslash() {
    let input_path = "..\\..\\..\\spritec\\..\\src\\.\\bin";

    let base_path = "C:\\user\\yourname\\spritec";
    let output_path = "C:\\src\\bin";
    resolve_check_windows(base_path, input_path, output_path);
}

#[test]
fn resolve_relative_path_backslash_prefix() {
    let input_path = "..\\..\\..\\spritec\\..\\src\\.\\bin";

    // This special prefix is an old Windows feature that no one uses
    let base_path = "\\\\?\\C:\\user\\yourname\\spritec";
    let output_path = "\\\\?\\C:\\src\\bin";
    resolve_check_windows(base_path, input_path, output_path);
}

#[test]
fn unix_parent_of_root_is_root() {
    assert_eq!(resolve_path("../../..", "/a", PathStyle::Unix), "/");
    assert_eq!(resolve_path("..", "/", PathStyle::Unix), "/");
}

#[test]
fn unix_duplicate_separators_and_dots_are_dropped() {
    assert_eq!(resolve_path(".//x/./y//", "/base//dir/", PathStyle::Unix), "/base/dir/x/y");
}

#[test]
fn unix_absolute_path_replaces_base() {
    assert_eq!(resolve_path("/etc/./passwd", "/home/me", PathStyle::Unix), "/etc/passwd");
}

#[test]
fn unix_backslash_path_is_relative() {
    // A path that starts with a backslash is not absolute in the Unix style
    assert_eq!(resolve_path("\\x\\y", "/a", PathStyle::Unix), "/a/x/y");
}

#[test]
fn windows_rooted_path_keeps_the_base_drive() {
    assert_eq!(resolve_path("\\x\\..\\y", "D:\\a\\b", PathStyle::Windows), "D:\\y");
    assert_eq!(resolve_path("/x", "\\\\?\\E:\\a", PathStyle::Windows), "\\\\?\\E:\\x");
}

#[test]
fn windows_path_with_its_own_drive_replaces_base() {
    assert_eq!(resolve_path("e:/x/./y", "C:\\a", PathStyle::Windows), "e:\\x\\y");
    // A drive without a root stays without a root
    assert_eq!(resolve_path("D:..\\x", "C:\\a", PathStyle::Windows), "D:x");
}

#[test]
fn windows_parent_of_drive_root_is_drive_root() {
    assert_eq!(resolve_path("..\\..", "C:\\", PathStyle::Windows), "C:\\");
}

#[test]
fn absolute_paths_by_style() {
    assert!(is_absolute("/x", PathStyle::Unix));
    assert!(!is_absolute("x/y", PathStyle::Unix));
    assert!(!is_absolute("C:\\x", PathStyle::Unix));
    assert!(is_absolute("C:\\x", PathStyle::Windows));
    assert!(is_absolute("c:/x", PathStyle::Windows));
    assert!(!is_absolute("C:x", PathStyle::Windows));
    assert!(!is_absolute("\\x", PathStyle::Windows));
    assert!(is_absolute("\\\\?\\C:", PathStyle::Windows));
    assert!(!is_absolute("/x", PathStyle::Windows));
}

#[test]
fn resolve_needs_an_absolute_base() {
    assert_eq!("x".resolve("relative/base"), None);
}

#[test]
fn native_style_is_unix_here() {
    assert_eq!(PathStyle::native(), PathStyle::Unix);
}

#[test]
fn windows_unc_path_replaces_base() {
    resolve_check_windows("C:\\a", "\\\\server\\share\\x", "\\\\server\\share\\x");
    resolve_check_windows("C:\\a", "//server/share/x/../y", "\\\\server\\share\\y");
}

#[test]
fn windows_unc_base_is_absolute() {
    assert!(is_absolute("\\\\server\\share", PathStyle::Windows));
    assert!(is_absolute("\\\\server\\share\\dir", PathStyle::Windows));
    resolve_check_windows("\\\\server\\share\\dir", "..\\..\\x", "\\\\server\\share\\x");
    // The root that a share implies is written out
    resolve_check_windows("\\\\server\\share", ".", "\\\\server\\share\\");
    resolve_check_windows("\\\\server\\share\\dir", "\\top", "\\\\server\\share\\top");
}

#[test]
fn windows_incomplete_share_is_not_a_prefix() {
    assert!(!is_absolute("\\\\server", PathStyle::Windows));
    assert!(!is_absolute("\\\\server\\", PathStyle::Windows));
}

#[test]
fn windows_verbatim_and_device_prefixes() {
    assert!(is_absolute("\\\\?\\UNC\\server\\share", PathStyle::Windows));
    resolve_check_windows("\\\\?\\UNC\\server\\share\\a", "..\\b", "\\\\?\\UNC\\server\\share\\b");
    assert!(is_absolute("\\\\.\\COM1", PathStyle::Windows));
    resolve_check_windows("\\\\.\\pipe\\dir", "x", "\\\\.\\pipe\\dir\\x");
    assert!(is_absolute("\\\\?\\Volume{abc}\\", PathStyle::Windows));
    resolve_check_windows("\\\\?\\Volume{abc}\\a", "..\\..\\b", "\\\\?\\Volume{abc}\\b");
    // A verbatim drive prefix alone implies a root
    assert!(is_absolute("\\\\?\\C:", PathStyle::Windows));
    // Written with slashes, a verbatim prefix reads as a share named `?`
    assert!(is_absolute("//?/C:", PathStyle::Windows));
}

#[test]
fn windows_verbatim_base_resolves_while_joining() {
    // A `..` of the path removes only a name of the base, not the base's own `.`
    resolve_check_windows("\\\\?\\C:\\a\\.", "..\\x", "\\\\?\\C:\\a\\x");
    resolve_check_windows("\\\\?\\C:\\a\\b", "..\\..\\x", "\\\\?\\C:\\x");
    // Nothing of the path remains after a verbatim base without a root
    resolve_check_windows("\\\\?\\C:", ".", "\\\\?\\C:");
    resolve_check_windows("\\\\?\\C:", "a\\..", "\\\\?\\C:");
    resolve_check_windows("\\\\?\\C:\\", ".", "\\\\?\\C:\\");
    // The first name of the path completes a verbatim share prefix that ends the base
    resolve_check_windows("\\\\?\\UNC\\server", ".\\share", "\\\\?\\UNC\\server\\share");
}

#[test]
fn resolving_a_resolved_path_gives_it_back() {
    let cases = [
        ("\\\\?\\UNC\\server", "\\\\x\\..\\y\\z"),
        ("\\\\?\\UNC\\server\\share", "a\\b"),
        ("\\\\?\\Volume{abc}", "."),
        ("\\\\server\\share", "..\\x"),
        ("//?/C:", "a"),
        ("C:\\a", "D:x\\..\\y"),
    ];
    for (base, path) in cases {
        let once = resolve_path(path, base, PathStyle::Windows);
        let twice = resolve_path(&once, "C:\\other", PathStyle::Windows);
        assert_eq!(twice, once, "resolving {:?} against {:?}", path, base);
    }
}
