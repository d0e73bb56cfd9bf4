use strata::tools::fs::{
    parent_of, require_path_arg, utf8_boundary_floor, EntryKind, FsConfig, ListDir, Probe,
    ReadFile, Resolved, WriteFile, MAX_READ_BYTES,
};
use strata::{JsonValue, ToolError};

fn obj(pairs: Vec<(&str, JsonValue)>) -> JsonValue {
    JsonValue::object(pairs.into_iter().map(|(k, v)| JsonValue::entry(k, v)).collect())
}

fn s(text: &str) -> JsonValue {
    JsonValue::string(text)
}

fn workspace() -> FsConfig {
    FsConfig::new(
        "/tmp/ws",
        Probe::Found {
            canonical: "/tmp/ws".into(),
            kind: EntryKind::Dir,
        },
    )
    .expect("config")
}

fn file_at(path: &str) -> Resolved {
    Resolved {
        path: path.into(),
        kind: Some(EntryKind::File),
    }
}

#[test]
fn utf8_boundary_floor_backs_off_continuation_bytes() {
    let bytes = "a中".as_bytes();
    assert_eq!(utf8_boundary_floor(bytes, 4), 4);
    assert_eq!(utf8_boundary_floor(bytes, 3), 1);
    assert_eq!(utf8_boundary_floor(bytes, 2), 1);
    assert_eq!(utf8_boundary_floor(bytes, 1), 1);
    assert_eq!(utf8_boundary_floor(bytes, 0), 0);
}

#[test]
fn utf8_boundary_floor_clamps_to_the_length() {
    let bytes = "ab".as_bytes();
    assert_eq!(utf8_boundary_floor(bytes, 10), 2);
    assert_eq!(utf8_boundary_floor(&[], 3), 0);
}

#[test]
fn resolve_rejects_absolute_path() {
    let config = workspace();
    let err = config.resolve_lexical("/etc/passwd").unwrap_err();
    assert!(matches!(err, ToolError::InvalidArgs(_)));
}

#[test]
fn resolve_rejects_escape_via_dotdot() {
    let config = workspace();
    let err = config.resolve_lexical("../outside.txt").unwrap_err();
    assert!(matches!(err, ToolError::InvalidArgs(_)));
}

#[test]
fn resolve_walks_components_under_the_root() {
    let config = workspace();
    assert_eq!(config.resolve_lexical("a/./b/../c.txt").unwrap(), "/tmp/ws/a/c.txt");
    assert_eq!(config.resolve_lexical("  ./x//y/  ").unwrap(), "/tmp/ws/x/y");
    assert_eq!(config.resolve_lexical(".").unwrap(), "/tmp/ws");
    assert_eq!(config.resolve_lexical("a/../..").unwrap_err().to_string(), "invalid arguments: path outside workspace");
    assert_eq!(config.resolve_lexical("   ").unwrap_err().to_string(), "invalid arguments: empty path");
    assert_eq!(
        config.resolve_lexical("/x").unwrap_err().to_string(),
        "invalid arguments: path must be relative to workspace root"
    );
    let root = FsConfig::new("/", Probe::Found { canonical: "/".into(), kind: EntryKind::Dir }).unwrap();
    assert_eq!(root.resolve_lexical("etc").unwrap(), "/etc");
}

#[test]
fn config_requires_an_existing_directory() {
    let err = FsConfig::new("nowhere", Probe::Missing).unwrap_err();
    assert_eq!(err.to_string(), "tool execution failed: workspace root does not exist: nowhere");
    let err = FsConfig::new(
        "f.txt",
        Probe::Found {
            canonical: "/tmp/f.txt".into(),
            kind: EntryKind::File,
        },
    )
    .unwrap_err();
    assert_eq!(
        err.to_string(),
        "tool execution failed: workspace root is not a directory: /tmp/f.txt"
    );
    let err = FsConfig::new("x", Probe::Failed("permission denied".into())).unwrap_err();
    assert!(matches!(err, ToolError::ExecutionFailed(m) if m == "permission denied"));
    assert_eq!(workspace().root(), "/tmp/ws");
}

#[test]
fn settle_keeps_canonical_paths_inside_the_root() {
    let config = workspace();
    let r = config.settle("/tmp/ws/new.txt".into(), Probe::Missing).unwrap();
    assert_eq!(r.path, "/tmp/ws/new.txt");
    assert_eq!(r.kind, None);
    let r = config
        .settle(
            "/tmp/ws/link".into(),
            Probe::Found {
                canonical: "/tmp/ws/real".into(),
                kind: EntryKind::File,
            },
        )
        .unwrap();
    assert_eq!(r.path, "/tmp/ws/real");
    let err = config
        .settle(
            "/tmp/ws/link".into(),
            Probe::Found {
                canonical: "/tmp/wsx/real".into(),
                kind: EntryKind::File,
            },
        )
        .unwrap_err();
    assert_eq!(err.to_string(), "invalid arguments: path outside workspace");
}

#[test]
fn read_file_returns_content() {
    let out = ReadFile::render("hello.txt", b"world").expect("read");
    assert_eq!(out, "world");
}

#[test]
fn read_file_not_found() {
    let target = Resolved {
        path: "/tmp/ws/missing.txt".into(),
        kind: None,
    };
    let err = ReadFile::check_target("missing.txt", &target).unwrap_err();
    assert!(matches!(err, ToolError::ExecutionFailed(_)));
}

#[test]
fn read_file_rejects_directory() {
    let target = Resolved {
        path: "/tmp/ws/sub".into(),
        kind: Some(EntryKind::Dir),
    };
    let err = ReadFile::check_target("sub", &target).unwrap_err();
    assert!(matches!(err, ToolError::ExecutionFailed(_)));
    assert!(ReadFile::check_target("a.txt", &file_at("/tmp/ws/a.txt")).is_ok());
}

#[test]
fn read_file_truncates_large_file() {
    let big = "x".repeat(MAX_READ_BYTES + 100);
    let out = ReadFile::render("big.txt", big.as_bytes()).expect("read");
    assert!(out.contains("[truncated at"));
    assert!(out.starts_with(&"x".repeat(MAX_READ_BYTES)));
    assert!(out.ends_with("\n[truncated at 524288 bytes; file size 524388 bytes]"));
}

#[test]
fn read_file_truncates_on_char_boundary() {
    let mut content = "a".repeat(MAX_READ_BYTES - 1);
    content.push('中');
    content.push_str("tail");
    let out = ReadFile::render("multibyte.txt", content.as_bytes())
        .expect("read should not error on a valid UTF-8 file");
    assert!(out.contains("[truncated at"));
    assert!(out.starts_with(&"a".repeat(MAX_READ_BYTES - 1)));
    assert!(!out.contains('中'));
}

#[test]
fn read_file_refuses_invalid_utf8() {
    let err = ReadFile::render("bin.dat", &[0x66, 0xff, 0x00]).unwrap_err();
    assert_eq!(err.to_string(), "tool execution failed: not valid UTF-8: bin.dat");
}

#[test]
fn write_file_overwrites() {
    let args = WriteFile::parse_args(&obj(vec![("path", s("out.txt")), ("content", s("v2"))])).unwrap();
    assert_eq!(args.path, "out.txt");
    assert_eq!(args.content, "v2");
    assert!(!args.create_dirs);
    assert!(WriteFile::check_target("out.txt", &file_at("/tmp/ws/out.txt")).is_ok());
    assert_eq!(WriteFile::report("out.txt", "v2"), "written 2 bytes to out.txt");
}

#[test]
fn write_file_create_dirs_false_fails() {
    let err = WriteFile::parent_plan("/tmp/ws/a/b", false, false).unwrap_err();
    assert!(matches!(err, ToolError::ExecutionFailed(_)));
    assert_eq!(
        err.to_string(),
        "tool execution failed: parent directory does not exist: /tmp/ws/a/b"
    );
}

#[test]
fn write_file_create_dirs_true() {
    let args = WriteFile::parse_args(&obj(vec![
        ("path", s("a/b/c.txt")),
        ("content", s("nested")),
        ("create_dirs", JsonValue::Bool(true)),
    ]))
    .unwrap();
    assert!(args.create_dirs);
    let config = workspace();
    let path = config.resolve_lexical(&args.path).unwrap();
    assert_eq!(path, "/tmp/ws/a/b/c.txt");
    let parent = parent_of(&path).unwrap();
    assert_eq!(parent, "/tmp/ws/a/b");
    assert_eq!(WriteFile::parent_plan(&parent, true, false).unwrap(), true);
    assert_eq!(WriteFile::parent_plan(&parent, false, true).unwrap(), false);
}

#[test]
fn write_file_reports_utf8_bytes_and_requires_content() {
    assert_eq!(WriteFile::report("z.txt", "中"), "written 3 bytes to z.txt");
    let err = WriteFile::parse_args(&obj(vec![("path", s("a"))])).unwrap_err();
    assert_eq!(err.to_string(), "invalid arguments: missing required field: content");
    let err = WriteFile::parse_args(&obj(vec![])).unwrap_err();
    assert_eq!(err.to_string(), "invalid arguments: missing required field: path");
    let err = WriteFile::check_target("d", &Resolved { path: "/tmp/ws/d".into(), kind: Some(EntryKind::Dir) }).unwrap_err();
    assert_eq!(err.to_string(), "tool execution failed: is a directory: d");
}

#[test]
fn fs_write_rejects_symlinked_parent_escape() {
    let config = workspace();
    let err = config.ensure_within_root("/tmp/outside").unwrap_err();
    assert!(matches!(err, ToolError::InvalidArgs(_)));
    assert!(config.ensure_within_root("/tmp/ws/link").is_ok());
    assert!(config.ensure_within_root("/tmp/ws").is_ok());
}

#[test]
fn list_dir_lists_entries() {
    let out = ListDir::render(vec![("sub".into(), true), ("a.txt".into(), false)]);
    let lines: Vec<_> = out.lines().collect();
    assert!(lines.contains(&"a.txt"));
    assert!(lines.contains(&"sub/"));
}

#[test]
fn list_dir_sorts_by_name() {
    let out = ListDir::render(vec![
        ("b".into(), false),
        ("Z".into(), false),
        ("a".into(), true),
        ("é".into(), false),
    ]);
    assert_eq!(out, "Z\na/\nb\né");
    assert_eq!(ListDir::render(vec![]), "");
    let not_dir = ListDir::check_target("f", &file_at("/tmp/ws/f")).unwrap_err();
    assert_eq!(not_dir.to_string(), "tool execution failed: not a directory: f");
}

#[test]
fn file_tool_schemas() {
    let config = workspace();
    let read = ReadFile::new(config.clone()).schema();
    assert_eq!(read.name, "read_file");
    assert_eq!(read.parameters.get("required"), Some(&JsonValue::array(vec![s("path")])));
    let write = WriteFile::new(config.clone()).schema();
    assert_eq!(write.name, "write_file");
    assert_eq!(
        write.parameters.get("required"),
        Some(&JsonValue::array(vec![s("path"), s("content")]))
    );
    let list = ListDir::new(config).schema();
    assert_eq!(list.name, "list_dir");
    assert_eq!(require_path_arg(&obj(vec![("path", s("."))])).unwrap(), ".");
}
