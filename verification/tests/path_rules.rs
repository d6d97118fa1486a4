use zip_risk_auditor::path::{
    extension, has_windows_drive_prefix, is_absolute_entry, is_executable_like, is_nested_archive,
    is_traversal_entry, is_zip_name, is_zip_path, name_extension, normalize_archive_path, path_steps,
    Host,
};

#[test]
fn normalize_archive_path_removes_dot_segments() {
    assert_eq!(normalize_archive_path("./docs//report.txt"), "docs/report.txt");
}

#[test]
fn traversal_and_absolute_entries_are_detected() {
    assert!(is_traversal_entry("../AppData/startup.bat"));
    assert!(is_absolute_entry("/Windows/System32/calc.exe"));
    assert!(is_absolute_entry("C:/Windows/System32/cmd.exe"));
}

#[test]
fn executable_and_nested_archive_detection_handles_common_extensions() {
    for host in [Host::Unix, Host::Windows] {
        assert!(is_executable_like("payload/run.ps1", host));
        assert!(is_nested_archive("drop/vendor.jar", host));
        assert!(!is_nested_archive("notes/readme.md", host));
    }
}

#[test]
fn normalization_edge_cases() {
    assert_eq!(normalize_archive_path(""), "");
    assert_eq!(normalize_archive_path("/"), "");
    assert_eq!(normalize_archive_path("./././"), "");
    assert_eq!(normalize_archive_path("/a//b/./c/"), "a/b/c");
    assert_eq!(normalize_archive_path("a/../b"), "a/../b");
    assert_eq!(normalize_archive_path("..."), "...");
    assert_eq!(normalize_archive_path("été/./ö"), "été/ö");
    assert_eq!(path_steps("/x/./y"), vec!["x".to_string(), "y".to_string()]);
}

#[test]
fn normalization_is_idempotent_and_keeps_verdicts() {
    for path in ["./a//../b.EXE", "/C:/x.zip", "..//..//AppData", "", "a/./b/", "//x/.tar"] {
        let normal = normalize_archive_path(path);
        assert_eq!(normalize_archive_path(&normal), normal);
        assert_eq!(is_traversal_entry(&normal), is_traversal_entry(path));
        assert_eq!(extension(&normal, Host::Unix), extension(path, Host::Unix));
        assert_eq!(is_executable_like(&normal, Host::Unix), is_executable_like(path, Host::Unix));
        assert_eq!(is_nested_archive(&normal, Host::Unix), is_nested_archive(path, Host::Unix));
        assert!(!normal.starts_with('/'));
    }
}

#[test]
fn traversal_needs_a_whole_piece() {
    assert!(is_traversal_entry("a/../b"));
    assert!(is_traversal_entry("a/.."));
    assert!(!is_traversal_entry("a/..b"));
    assert!(!is_traversal_entry("a../b"));
    assert!(!is_traversal_entry("..."));
    assert!(!is_traversal_entry(""));
    assert!(!is_traversal_entry("..\\a"));
}

#[test]
fn drive_prefixes() {
    assert!(has_windows_drive_prefix("C:/x"));
    assert!(has_windows_drive_prefix("c:\\x"));
    assert!(has_windows_drive_prefix("1:/"));
    assert!(!has_windows_drive_prefix("C:x"));
    assert!(!has_windows_drive_prefix("C:"));
    assert!(!has_windows_drive_prefix("CC:/x"));
    assert!(!has_windows_drive_prefix("é:/x"));
    assert!(!has_windows_drive_prefix(""));
    assert!(is_absolute_entry("\\share\\x"));
    assert!(is_absolute_entry("D:\\x"));
    assert!(!is_absolute_entry("docs/x"));
    assert!(!is_absolute_entry(""));
}

#[test]
fn extensions_agree_with_the_standard_library_on_slashed_paths() {
    let paths = [
        "a.txt", "a", ".hidden", ".hidden.gz", "a.", "a..", "x/y.TaR", "x.d/y", "x.d/", "x.d/.",
        "..", "a/..", "a.b/..", ".", "", "/", "/.exe", "a/.b.c", "...", "..a", "ünï.ZÏP", "x/./y.z/./",
    ];
    for path in paths {
        let expected = std::path::Path::new(path)
            .extension()
            .and_then(|ext| ext.to_str())
            .map(|ext| ext.to_ascii_lowercase());
        assert_eq!(extension(path, Host::Unix), expected, "{path}");
    }
}

#[test]
fn every_listed_extension_counts_in_any_case() {
    for host in [Host::Unix, Host::Windows] {
        for ext in ["exe", "dll", "bat", "cmd", "ps1", "js", "vbs", "scr", "msi", "com"] {
            assert!(is_executable_like(&format!("a/b.{ext}"), host));
            assert!(is_executable_like(&format!("a/b.{}", ext.to_uppercase()), host));
            assert!(!is_nested_archive(&format!("a/b.{ext}"), host));
        }
        for ext in ["zip", "jar", "war", "ear", "7z", "gz", "tar"] {
            assert!(is_nested_archive(&format!("a/b.{ext}"), host));
            assert!(is_nested_archive(&format!("a/b.{}", ext.to_uppercase()), host));
            assert!(!is_executable_like(&format!("a/b.{ext}"), host));
        }
        assert!(!is_executable_like("exe", host));
        assert!(!is_executable_like(".exe", host));
        assert!(!is_nested_archive("a.zip/b", host));
    }
}

#[test]
fn zip_paths() {
    for host in [Host::Unix, Host::Windows] {
        for path in ["a.zip", "a.ZIP", "d/a.b.Zip", "dir/A.Zip"] {
            assert!(is_zip_path(path, host));
        }
        for path in ["zip", ".zip", "a.zip.txt", "a.zipx", "", "a.zip/.."] {
            assert!(!is_zip_path(path, host));
        }
        for path in ["a.zip", "C:.zip", "C:a.zip", "x\\.zip", ".zip", "zip", "", "d/.zip"] {
            let by_extension = extension(path, host) == Some("zip".to_string());
            assert_eq!(is_zip_path(path, host), by_extension, "{path}");
        }
    }
    assert!(is_zip_path("C:.zip", Host::Unix));
    assert!(!is_zip_path("C:.zip", Host::Windows));
}

#[test]
fn zip_names() {
    for name in ["a.zip", "A.Zip", "a.b.zip", "C:.zip"] {
        assert!(is_zip_name(name));
    }
    for name in ["zip", ".zip", "a.zip.txt", ""] {
        assert!(!is_zip_name(name));
    }
    assert_eq!(name_extension("a.TXT"), Some("txt".to_string()));
    assert_eq!(name_extension("a/.b"), Some("b".to_string()));
}

#[test]
fn a_windows_host_sets_drives_apart() {
    assert!(is_executable_like("C:.exe", Host::Unix));
    assert!(!is_executable_like("C:.exe", Host::Windows));
    assert!(is_executable_like("C:a.exe", Host::Windows));
    assert!(is_executable_like("c:/dir/a.EXE", Host::Windows));
    assert!(is_executable_like("1:.exe", Host::Windows));
    assert!(is_executable_like("x/C:.exe", Host::Windows));
    assert!(!is_nested_archive("z:.tar", Host::Windows));
    assert_eq!(extension("C:", Host::Windows), None);
    assert_eq!(extension("C:.", Host::Windows), None);
    assert_eq!(extension("C:..", Host::Windows), None);
    assert_eq!(extension("C:..", Host::Unix), Some(String::new()));
    assert_eq!(extension("a.b\\c", Host::Windows), None);
    assert_eq!(extension("a.b\\c", Host::Unix), Some("b\\c".to_string()));
    assert_eq!(extension("D:\\x\\.hidden.GZ", Host::Windows), Some("gz".to_string()));
}
