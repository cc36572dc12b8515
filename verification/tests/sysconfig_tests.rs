use winproc::errors::ProcessError;
use winproc::permissions::{is_admin_protected_path, is_executable_extension};
use winproc::registry::{ensure_dot_prefix, shell_open_command, default_icon_value};

#[test]
fn test_is_running_as_admin() {
    let result = winproc::fallback::is_running_as_admin();
    assert!(result.is_ok());

    let is_admin = result.expect("the fallback admin check cannot fail");
    println!("Running as administrator: {}", is_admin);
}

#[test]
fn admin_protected_paths() {
    assert!(is_admin_protected_path(r"C:\Windows\System32"));
    assert!(is_admin_protected_path(r"c:\program files\App"));
    assert!(is_admin_protected_path(r"C:\Program Files (x86)\App"));
    assert!(is_admin_protected_path(r"C:\ProgramData\App"));
    assert!(!is_admin_protected_path(r"C:\Users\someone\Documents"));
    assert!(!is_admin_protected_path(r"D:\Windows"));
}

#[test]
fn executable_extensions() {
    for ext in ["exe", "EXE", "Bat", "cmd", "com", "scr", "Msi"] {
        assert!(is_executable_extension(ext), "{} should count as executable", ext);
    }
    for ext in ["txt", "doc", "exe2", ""] {
        assert!(!is_executable_extension(ext), "{} should not count as executable", ext);
    }
}

#[test]
fn dot_prefix_added_when_missing() {
    assert_eq!(ensure_dot_prefix("opc"), ".opc");
    assert_eq!(ensure_dot_prefix(".opc"), ".opc");
    assert_eq!(ensure_dot_prefix(""), ".");
}

#[test]
fn shell_command_quotes_both_parts() {
    assert_eq!(
        shell_open_command(r"C:\Program Files\App\app.exe"),
        "\"C:\\Program Files\\App\\app.exe\" \"%1\""
    );
}

#[test]
fn icon_value_appends_index() {
    assert_eq!(default_icon_value(r"C:\App\app.exe"), "C:\\App\\app.exe,0");
}

#[test]
fn fallback_operations_return_neutral_values() {
    assert!(matches!(winproc::fallback::kill_process_tree(1234), Ok(false)));
    let listed = winproc::fallback::list_processes_by_name("notepad.exe").unwrap();
    assert!(listed.is_empty());
    assert!(matches!(winproc::fallback::is_process_elevated(1), Ok(false)));
    assert!(winproc::fallback::register_file_association(".x", "X.Doc", "C:\\x.exe", "X").is_ok());
    assert!(winproc::fallback::register_url_protocol("x", "C:\\x.exe", "X").is_ok());
    assert!(winproc::fallback::set_auto_start("X", "C:\\x.exe", true).is_ok());
    assert!(matches!(winproc::fallback::request_elevation("C:\\x.exe", &["--admin"]), Ok(false)));
    assert!(winproc::fallback::set_file_acl("C:\\x.txt", "Users:(R)").is_ok());
}

#[test]
fn error_message_is_carried() {
    let e = ProcessError::SnapshotUnavailable("no listing".to_string());
    assert_eq!(e.message(), "no listing");
    let e = ProcessError::AccessDenied("denied".to_string());
    assert_eq!(e.message(), "denied");
    let e = ProcessError::ToolInvocationFailed("spawn failed".to_string());
    assert_eq!(e.message(), "spawn failed");
    let e = ProcessError::TerminationFailed("still alive".to_string());
    assert_eq!(e.message(), "still alive");
}
