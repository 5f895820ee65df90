use locker::path::{chars_of, check_stays_below, file_name_of, join, with_extension_of};
use locker::root::Root;
use locker::Failure;

fn root() -> Root {
    Root::new("/home/x").unwrap()
}

fn stays_below(path: &str) -> bool {
    check_stays_below(&chars_of(path))
}

#[test]
fn chars_of_keeps_every_character() {
    assert_eq!(chars_of("h\u{e9}llo/\u{4e16}"), vec!['h', '\u{e9}', 'l', 'l', 'o', '/', '\u{4e16}']);
    assert_eq!(chars_of(""), Vec::<char>::new());
}

#[test]
fn root_must_be_absolute() {
    assert!(Root::new("home/x").is_none());
    assert!(Root::new("").is_none());
    assert_eq!(Root::new("/home/x").unwrap().dir(), "/home/x/");
    assert_eq!(Root::new("/home/x/").unwrap().dir(), "/home/x/");
    assert_eq!(Root::new("/").unwrap().dir(), "/");
}

#[test]
fn resolve_joins_onto_the_root() {
    assert_eq!(root().resolve("docs/a.txt"), Ok("/home/x/docs/a.txt".to_string()));
    assert_eq!(root().resolve(""), Ok("/home/x/".to_string()));
    assert_eq!(root().resolve("docs/"), Ok("/home/x/docs/".to_string()));
    assert_eq!(Root::new("/").unwrap().resolve("etc"), Ok("/etc".to_string()));
}

#[test]
fn resolve_refuses_escapes() {
    for path in [
        "../../etc", "..", "/etc", "/", "../", "../a", "a/../..", "a/../../b", "a/b/../../..",
        "./..", "a//../..", "a/./../../a", "../a/b",
    ] {
        assert_eq!(root().resolve(path), Err(Failure::OutsideRoot), "{path}");
        assert!(!stays_below(path), "{path}");
    }
}

#[test]
fn parent_components_that_stay_below_pass() {
    for path in ["a/../b", "a/..", "a/b/../../c", "a/b/../..", "a//..", "./a/..", "a/../b/.."] {
        assert!(stays_below(path), "{path}");
        assert_eq!(root().resolve(path), Ok(format!("/home/x/{path}")));
    }
}

#[test]
fn dots_that_are_no_parent_component_pass() {
    for path in ["...", "..a", "a..", "a/..b/c", "a/b../c", ".", "./a", ".hidden", "a/.../b", "..."] {
        assert!(stays_below(path), "{path}");
        assert_eq!(root().resolve(path), Ok(format!("/home/x/{path}")));
    }
}

#[test]
fn strip_removes_the_root() {
    assert_eq!(root().strip("/home/x/docs"), Ok("docs".to_string()));
    assert_eq!(root().strip("/home/x/docs/a.txt"), Ok("docs/a.txt".to_string()));
    assert_eq!(root().strip("/home/x/"), Ok(String::new()));
    assert_eq!(root().strip("/home/x/a/../b"), Ok("a/../b".to_string()));
    assert_eq!(root().strip("/home/x/\u{e9}t\u{e9}/\u{4e16}"), Ok("\u{e9}t\u{e9}/\u{4e16}".to_string()));
}

#[test]
fn strip_refuses_what_is_not_below_the_root() {
    for path in ["/home/xy/docs", "/home/x", "/home", "/etc/passwd", "", "home/x/docs",
        "/home/x/../etc", "/home/x//etc", "/home/x/a/../.."]
    {
        assert_eq!(root().strip(path), Err(Failure::OutsideRoot), "{path}");
    }
}

#[test]
fn strip_inverts_resolve() {
    for rel in ["", "a", "docs/a.txt", "a/b/c/", ".hidden", "\u{e9}"] {
        let abs = root().resolve(rel).unwrap();
        assert_eq!(root().strip(&abs), Ok(rel.to_string()));
        assert_eq!(root().resolve(&root().strip(&abs).unwrap()), Ok(abs));
    }
}

#[test]
fn file_name_is_the_last_component() {
    assert_eq!(file_name_of("a/b.txt"), Some("b.txt".to_string()));
    assert_eq!(file_name_of("x"), Some("x".to_string()));
    assert_eq!(file_name_of("a/b/"), Some("b".to_string()));
    assert_eq!(file_name_of("a//b///"), Some("b".to_string()));
    assert_eq!(file_name_of(".bash_history"), Some(".bash_history".to_string()));
    assert_eq!(file_name_of("a/..."), Some("...".to_string()));
    assert_eq!(file_name_of("d\u{e9}j\u{e0}/v\u{fc}"), Some("v\u{fc}".to_string()));
}

#[test]
fn some_paths_have_no_file_name() {
    for path in ["", "/", "///", ".", "..", "a/.", "a/..", "a/../"] {
        assert_eq!(file_name_of(path), None, "{path}");
    }
}

#[test]
fn with_extension_replaces_or_adds() {
    assert_eq!(with_extension_of("a/b.mkv", "mp4"), Some("a/b.mp4".to_string()));
    assert_eq!(with_extension_of("record.mkv", "mp4"), Some("record.mp4".to_string()));
    assert_eq!(with_extension_of("a/b", "mp4"), Some("a/b.mp4".to_string()));
    assert_eq!(with_extension_of("a/b.tar.gz", "mp4"), Some("a/b.tar.mp4".to_string()));
    assert_eq!(with_extension_of(".hidden", "mp4"), Some(".hidden.mp4".to_string()));
    assert_eq!(with_extension_of("a.d/b", "mp4"), Some("a.d/b.mp4".to_string()));
    assert_eq!(with_extension_of("a/b.mkv/", "mp4"), Some("a/b.mp4".to_string()));
    assert_eq!(with_extension_of("b.", "mp4"), Some("b.mp4".to_string()));
    assert_eq!(with_extension_of("clip.mp4", "mp4"), Some("clip.mp4".to_string()));
}

#[test]
fn with_extension_needs_a_file_name() {
    for path in ["", "/", ".", "..", "a/.."] {
        assert_eq!(with_extension_of(path, "mp4"), None, "{path}");
    }
}

#[test]
fn join_adds_one_separator() {
    assert_eq!(join("/r/d", "n"), "/r/d/n");
    assert_eq!(join("/r/d/", "n"), "/r/d/n");
    assert_eq!(join("", "n"), "n");
    assert_eq!(join("/", "n"), "/n");
}

fn walk_stays_below(path: &str) -> bool {
    if path.starts_with('/') {
        return false;
    }
    let mut depth: i64 = 0;
    for component in path.split('/') {
        match component {
            "" | "." => {}
            ".." => depth -= 1,
            _ => depth += 1,
        }
        if depth < 0 {
            return false;
        }
    }
    true
}

#[test]
fn stays_below_agrees_with_a_walk_over_the_components() {
    let pieces = ["", "a", ".", "..", "...", "b.c", "..d"];
    let mut paths = vec![String::new()];
    for _ in 0..4 {
        let mut longer = Vec::new();
        for path in &paths {
            for piece in pieces {
                longer.push(format!("{path}{piece}"));
                longer.push(format!("{path}{piece}/"));
            }
        }
        paths.extend(longer);
        paths.sort();
        paths.dedup();
    }
    assert!(paths.len() > 1000);
    for path in &paths {
        assert_eq!(stays_below(path), walk_stays_below(path), "{path}");
    }
}

#[test]
fn names_and_extensions_agree_with_std_on_ordinary_paths() {
    for path in ["a/b.mkv", "record.mkv", "a/b", "a/b.tar.gz", ".hidden", "a.d/b", "b.", "x/.y.z",
        "clip.mp4", "a/..b", "a/b..c", "d\u{e9}j\u{e0}/v\u{fc}.avi"]
    {
        let std_path = std::path::Path::new(path);
        assert_eq!(
            file_name_of(path).as_deref(),
            std_path.file_name().and_then(|name| name.to_str()),
            "{path}"
        );
        let mut changed = std_path.to_path_buf();
        assert!(changed.set_extension("mp4"));
        assert_eq!(with_extension_of(path, "mp4").as_deref(), changed.to_str(), "{path}");
        assert_eq!(join("/srv/locker", path), std::path::Path::new("/srv/locker").join(path).to_str().unwrap());
        assert_eq!(join("/srv/locker/", path), std::path::Path::new("/srv/locker/").join(path).to_str().unwrap());
    }
}
