use eisen_core::paths::{extract_path_from_line, extract_redirect_target, scan_text, scan_title, uri_to_path};

#[test]
fn uri_to_path_file() {
    assert_eq!(uri_to_path("file:///home/user/a.rs"), Some("/home/user/a.rs".to_string()));
}

#[test]
fn uri_to_path_non_file() {
    assert_eq!(uri_to_path("https://example.com"), None);
    assert_eq!(uri_to_path("ftp://host/file"), None);
}

#[test]
fn uri_to_path_keeps_unicode_and_colons() {
    assert_eq!(
        uri_to_path("file:///home/\u{1F600}/a:b.rs"),
        Some("/home/\u{1F600}/a:b.rs".to_string())
    );
    assert_eq!(uri_to_path("file://"), Some(String::new()));
    assert_eq!(uri_to_path("file:/"), None);
    assert_eq!(uri_to_path(""), None);
}

#[test]
fn path_from_line_formats() {
    assert_eq!(extract_path_from_line("/path/to/file.rs"), Some("/path/to/file.rs".to_string()));
    assert_eq!(
        extract_path_from_line("/path/to/file.rs:42:    fn main() {}"),
        Some("/path/to/file.rs".to_string())
    );
    assert_eq!(extract_path_from_line("/path/to/\u{00e9}t\u{00e9}.rs:1"), Some("/path/to/\u{00e9}t\u{00e9}.rs".to_string()));
    assert_eq!(extract_path_from_line("relative/file.rs"), None);
    assert_eq!(extract_path_from_line("/"), None);
    assert_eq!(extract_path_from_line("/ :x"), None);
    assert_eq!(extract_path_from_line("/a "), Some("/a".to_string()));
    assert_eq!(extract_path_from_line(""), None);
}

#[test]
fn redirect_targets() {
    assert_eq!(extract_redirect_target("cat > out.txt"), Some("out.txt".to_string()));
    assert_eq!(extract_redirect_target("echo hi >> /tmp/log.txt 2"), Some("/tmp/log.txt".to_string()));
    assert_eq!(extract_redirect_target("a > x >> y"), Some("y".to_string()));
    assert_eq!(extract_redirect_target("a >> x > y"), Some("x".to_string()));
    assert_eq!(extract_redirect_target("ls -la"), None);
    assert_eq!(extract_redirect_target("echo >"), None);
    assert_eq!(extract_redirect_target("echo >   "), None);
}

#[test]
fn scan_text_takes_files_with_extension() {
    let text = "Results found:\n/home/user/src/main.rs:42: code\nno-path-here\n  /indented/file.ts  \n/home/user/src\n/a/.hidden\n/a/b.rs/\n/a/..\n/x/y.tar.gz\r\n";
    assert_eq!(
        scan_text(text),
        vec![
            "/home/user/src/main.rs".to_string(),
            "/indented/file.ts".to_string(),
            "/a/b.rs/".to_string(),
            "/x/y.tar.gz".to_string(),
        ]
    );
    assert_eq!(scan_text(""), Vec::<String>::new());
}

#[test]
fn scan_title_splits_commands() {
    assert_eq!(
        scan_title("echo a > x.txt && echo b >> y.txt"),
        vec!["x.txt".to_string(), "y.txt".to_string(), "y.txt".to_string()]
    );
    assert_eq!(
        scan_title("echo a > x.txt; echo b > y.txt"),
        vec!["y.txt".to_string(), "x.txt".to_string(), "y.txt".to_string()]
    );
    assert_eq!(scan_title("ls"), Vec::<String>::new());
}
