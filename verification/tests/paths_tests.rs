use winproc::paths::{
    normalize_path, to_native_path_string, join_paths, is_absolute_path, get_separator,
    ensure_trailing_separator, from_unix_path, from_windows_path, file_extension,
};

#[test]
fn test_normalize_path() {
    assert_eq!(normalize_path("C:/Users/test/file.txt"), "C:\\Users\\test\\file.txt");
    assert_eq!(normalize_path("C:\\Users\\test\\file.txt"), "C:\\Users\\test\\file.txt");
    assert_eq!(normalize_path("\\\\server\\share\\file.txt"), "\\\\server\\share\\file.txt");
}

#[test]
fn test_is_absolute_path() {
    assert!(is_absolute_path("C:\\Users\\test"));
    assert!(is_absolute_path("D:/Projects"));
    assert!(is_absolute_path("\\\\server\\share"));
    assert!(!is_absolute_path("relative\\path"));
    assert!(!is_absolute_path("./file.txt"));
}

#[test]
fn test_join_paths() {
    let result = join_paths("C:\\Users", "test\\file.txt");
    assert_eq!(result, "C:\\Users\\test\\file.txt");
}

#[test]
fn test_windows_path_handling() {
    let paths = vec![
        (r"C:\Users\Test", true),
        (r"\\server\share", true),
        (r"D:\Projects\opcode", true),
        ("relative\\path", false),
        ("./file.txt", false),
    ];

    for (path, should_be_absolute) in paths {
        assert_eq!(
            is_absolute_path(path),
            should_be_absolute,
            "Path '{}' absolute check failed",
            path
        );
    }
}

#[test]
fn test_unc_path_support() {
    let unc_paths = vec![
        r"\\server\share\file.txt",
        r"\\?\C:\very\long\path",
        r"\\.\COM1",
    ];

    for path in unc_paths {
        assert!(
            is_absolute_path(path),
            "Path '{}' should be recognized as UNC",
            path
        );
    }
}

#[test]
fn test_binary_detection() {
    let exe_extensions = vec![
        "agent.exe",
        "AGENT.EXE",
        "agent.bat",
        "agent.cmd",
    ];

    for exe_name in exe_extensions {
        let extension = file_extension(exe_name);
        let is_executable = match extension.as_deref() {
            Some(ext) => winproc::permissions::is_executable_extension(ext),
            None => false,
        };
        assert!(is_executable, "{} should be recognized as executable", exe_name);
    }
}

#[test]
fn test_windows_executable_permissions() {
    let executable_extensions = vec!["exe", "bat", "cmd", "com", "scr", "msi"];

    for ext in executable_extensions {
        let filename = format!("test.{}", ext);
        let extension = file_extension(&filename);
        assert_eq!(
            extension.as_deref(),
            Some(ext),
            "Extension should be correctly detected for {}",
            filename
        );
    }
}

#[test]
fn test_normalize_collapses_doubled_backslashes() {
    assert_eq!(normalize_path("C:\\\\Users\\\\test"), "C:\\Users\\test");
    assert_eq!(normalize_path("C://Users//test"), "C:\\Users\\test");
}

#[test]
fn test_normalize_preserves_unc_prefix() {
    assert_eq!(normalize_path("//server/share"), "\\\\server\\share");
    assert_eq!(normalize_path("\\\\\\\\server"), "\\\\\\server");
}

#[test]
fn test_to_native_path_string() {
    assert_eq!(to_native_path_string("a/b/c"), "a\\b\\c");
}

#[test]
fn test_get_separator() {
    assert_eq!(get_separator(), '\\');
}

#[test]
fn test_ensure_trailing_separator() {
    assert_eq!(ensure_trailing_separator("C:\\Users"), "C:\\Users\\");
    assert_eq!(ensure_trailing_separator("C:\\Users\\"), "C:\\Users\\");
    assert_eq!(ensure_trailing_separator(""), "\\");
}

#[test]
fn test_from_unix_path() {
    assert_eq!(from_unix_path("/home/user/file"), "\\home\\user\\file");
    assert_eq!(from_unix_path("plain"), "plain");
}

#[test]
fn test_from_windows_path() {
    assert_eq!(from_windows_path("C:\\Users\\test"), "C:\\Users\\test");
}

#[test]
fn test_join_paths_absolute_second_replaces() {
    assert_eq!(join_paths("C:\\Users", "D:\\Other"), "D:\\Other");
    assert_eq!(join_paths("C:\\Users\\", "sub"), "C:\\Users\\sub");
    assert_eq!(join_paths("", "sub"), "sub");
}

#[test]
fn test_file_extension_edges() {
    assert_eq!(file_extension("archive.tar.gz").as_deref(), Some("gz"));
    assert_eq!(file_extension(".hidden"), None);
    assert_eq!(file_extension("noext"), None);
    assert_eq!(file_extension("dir.d\\noext"), None);
    assert_eq!(file_extension("trailing."), Some(String::new()));
}
