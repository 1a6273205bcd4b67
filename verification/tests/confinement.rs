use confined_fs::middleware::root::{confine, make_relative, Root, RootLayer, Verdict};
use confined_fs::path::in_resolved_form;
use confined_fs::{FileSystem, Mode, Request};
use std::path::Path;

/// What the standard library makes of a path under a root: the canonical
/// form of the join, kept only if it starts with the root.
fn by_canonical_prefix(root: &str, subpath: &str) -> Option<String> {
    let subpath = Path::new(subpath);
    Path::new(root)
        .join(subpath.strip_prefix("/").unwrap_or(subpath))
        .canonicalize()
        .ok()
        .filter(|path| path.starts_with(root))
        .map(|path| path.to_str().unwrap().to_string())
}

fn canonical(path: &str) -> Option<String> {
    Path::new(path)
        .canonicalize()
        .ok()
        .map(|path| path.to_str().unwrap().to_string())
}

fn text(value: &str) -> String {
    value.to_string()
}

#[test]
fn test_relative() {
    assert_eq!(make_relative("", "/src"), canonical("src"));
}

#[test]
fn traversal_out_of_the_root_is_rejected() {
    assert_eq!(make_relative("/srv/data", "../../etc/passwd"), None);
}

#[test]
fn resolution_outside_the_root_is_rejected() {
    assert_eq!(confine("/srv/data", Some(text("/etc/report.txt"))), None);
    assert_eq!(confine("/srv/data", Some(text("/srv/data2/report.txt"))), None);
    assert_eq!(confine("/srv/data", Some(text("/srv"))), None);
    assert_eq!(confine("/srv/data", None), None);
}

#[test]
fn resolution_under_the_root_is_kept() {
    assert_eq!(
        confine("/srv/data", Some(text("/srv/data/report.txt"))),
        Some(text("/srv/data/report.txt"))
    );
    assert_eq!(
        confine("/srv/data", Some(text("/srv/data"))),
        Some(text("/srv/data"))
    );
}

#[test]
fn link_out_of_the_root_is_rejected() {
    let links = [("/proc/self", "cwd"), ("/proc/self", "root"), ("/dev", "fd"), ("/dev", "stdin")];
    for (root, link) in links {
        let root = match canonical(root) {
            Some(root) => root,
            None => continue,
        };
        let target = match canonical(&format!("{}/{}", root, link)) {
            Some(target) => target,
            None => continue,
        };
        if !Path::new(&target).starts_with(&root) {
            assert_eq!(make_relative(&root, link), None);
            assert_eq!(confine(&root, Some(target)), None);
        }
    }
}

#[test]
fn missing_target_is_rejected() {
    assert_eq!(make_relative("/", "no/such/entry/anywhere/at/all"), None);
}

#[test]
fn empty_path_and_dot_yield_the_root() {
    for root in ["/", "."] {
        if let Some(root) = canonical(root) {
            assert_eq!(make_relative(&root, ""), Some(root.clone()));
            assert_eq!(make_relative(&root, "."), Some(root.clone()));
            assert_eq!(make_relative(&root, "/"), Some(root.clone()));
            assert_eq!(make_relative(&root, "./."), Some(root.clone()));
        }
    }
}

#[test]
fn nothing_resolves_outside_the_root() {
    let roots = ["/", ".", "/usr", "/etc", "/dev", "/proc/self", "/srv/data", ""];
    let subpaths = [
        "", ".", "..", "../..", "/", "/..", "bin", "../bin", "fd", "cwd", "root", "passwd",
        "../etc/passwd", "./././..", "lib/..", "lib/../..", "//etc//passwd", "self", "stdin",
    ];
    for root in roots {
        let root = canonical(root).unwrap_or(text(root));
        for subpath in subpaths {
            let confined = make_relative(&root, subpath);
            assert_eq!(confined, by_canonical_prefix(&root, subpath));
            if let Some(path) = confined {
                assert!(Path::new(&path).starts_with(&root));
            }
        }
    }
}

#[test]
fn layer_resolves_its_root() {
    let layer = RootLayer::new("/").unwrap();
    assert_eq!(layer.path(), "/");
    let layer = RootLayer::new("/./").unwrap();
    assert_eq!(layer.path(), "/");
    if let Some(here) = canonical(".") {
        assert_eq!(RootLayer::new(".").unwrap().path(), here);
    }
}

#[test]
fn layer_fails_where_the_root_is_missing() {
    let error = RootLayer::new("/no/such/entry/anywhere/at/all").unwrap_err();
    assert_eq!(error.kind(), std::io::ErrorKind::NotFound);
}

#[test]
fn layer_keeps_a_resolved_root() {
    let layer = RootLayer::rooted_at(text("/srv/data"));
    assert_eq!(layer.path(), "/srv/data");
    assert_eq!(layer, RootLayer::rooted_at(text("/srv/data")));
}

#[test]
fn request_under_the_root_is_forwarded() {
    let mut service: Root<FileSystem> = RootLayer::new("/").unwrap().layer(FileSystem);
    match service.call(Request::Exists(text("."))) {
        Verdict::Forward(Request::Exists(path)) => assert_eq!(path, "/"),
        other => panic!("expected the request to pass, got {:?}", other),
    }
    match service.call(Request::Open {
        mode: Mode::Read,
        path: text("/./"),
    }) {
        Verdict::Forward(Request::Open { mode, path }) => {
            assert_eq!(mode, Mode::Read);
            assert_eq!(path, "/");
        }
        other => panic!("expected the request to pass, got {:?}", other),
    }
}

#[test]
fn request_outside_the_root_is_not_found() {
    let mut service = RootLayer::rooted_at(text("/srv/data")).layer(FileSystem);
    assert!(matches!(
        service.call(Request::Exists(text("../../etc/passwd"))),
        Verdict::NotFound
    ));
    assert!(matches!(
        service.call(Request::Copy {
            from: text("../../etc/passwd"),
            to: text("copy"),
        }),
        Verdict::NotFound
    ));
}

#[test]
fn one_rejected_path_rejects_the_request() {
    let request = Request::Rename {
        from: text("."),
        to: text("no/such/entry/anywhere/at/all"),
    };
    assert!(request.adjust_paths("/").is_none());
    let request = Request::Rename {
        from: text("no/such/entry/anywhere/at/all"),
        to: text("."),
    };
    assert!(request.adjust_paths("/").is_none());
}

#[test]
fn adjusted_request_keeps_its_parameters() {
    let adjusted = Request::CreateDir {
        path: text("/"),
        recursive: true,
    }
    .adjust_paths("/");
    assert!(matches!(
        adjusted,
        Some(Request::CreateDir { ref path, recursive: true }) if path == "/"
    ));
    let adjusted = Request::SetPermissions {
        path: text(""),
        perm: 0o755,
    }
    .adjust_paths("/");
    assert!(matches!(
        adjusted,
        Some(Request::SetPermissions { ref path, perm: 0o755 }) if path == "/"
    ));
    let adjusted = Request::HardLink {
        src: text("."),
        dst: text("./."),
    }
    .adjust_paths("/");
    assert!(matches!(
        adjusted,
        Some(Request::HardLink { ref src, ref dst }) if src == "/" && dst == "/"
    ));
}

#[test]
fn replacement_paths_take_their_places() {
    let request = Request::Copy {
        from: text("a"),
        to: text("b"),
    };
    assert_eq!(request.first_path(), "a");
    assert_eq!(request.second_path(), Some("b"));
    let rebuilt = request.with_resolved(Some(text("/r/a")), Some(text("/r/b")));
    assert!(matches!(
        rebuilt,
        Some(Request::Copy { ref from, ref to }) if from == "/r/a" && to == "/r/b"
    ));
    let request = Request::GetMetadata {
        path: text("a"),
        follow_symlinks: false,
    };
    assert_eq!(request.second_path(), None);
    let rebuilt = request.clone().with_resolved(Some(text("/r/a")), None);
    assert!(matches!(
        rebuilt,
        Some(Request::GetMetadata { ref path, follow_symlinks: false }) if path == "/r/a"
    ));
    assert!(request.clone().with_resolved(None, None).is_none());
    assert!(request.with_resolved(None, Some(text("/r/b"))).is_none());
    let request = Request::SymLink {
        src: text("a"),
        dst: text("b"),
    };
    assert!(request.with_resolved(Some(text("/r/a")), None).is_none());
}

#[test]
fn layer_keeps_what_the_resolution_says() {
    let layer = RootLayer::from_resolved(Ok(text("/srv/data"))).unwrap();
    assert_eq!(layer.path(), "/srv/data");
    let denied = std::io::Error::from(std::io::ErrorKind::PermissionDenied);
    let error = RootLayer::from_resolved(Err(denied)).unwrap_err();
    assert_eq!(error.kind(), std::io::ErrorKind::PermissionDenied);
}

#[test]
fn verdict_follows_the_resolution() {
    match Verdict::of(Some(Request::Exists(text("/srv/data/report.txt")))) {
        Verdict::Forward(Request::Exists(path)) => assert_eq!(path, "/srv/data/report.txt"),
        other => panic!("expected the request to pass, got {:?}", other),
    }
    assert!(matches!(Verdict::of(None), Verdict::NotFound));
}

#[test]
fn resolution_in_another_form_is_rejected() {
    assert_eq!(confine("/srv/data", Some(text("/srv/data/../etc/passwd"))), None);
    assert_eq!(confine("/srv/data", Some(text("/srv/data/report.txt/.."))), None);
    assert_eq!(confine("/srv/data", Some(text("./srv/data/report.txt"))), None);
    assert_eq!(confine("srv/data", Some(text("srv/data/report.txt"))), None);
    assert_eq!(confine("", Some(text("report.txt"))), None);
    assert_eq!(confine("", Some(text(""))), None);
    assert_eq!(
        confine("", Some(text("/srv/data/report.txt"))),
        Some(text("/srv/data/report.txt"))
    );
}

#[test]
fn resolved_form_is_absolute_and_plain() {
    assert!(in_resolved_form("/"));
    assert!(in_resolved_form("/srv/data"));
    assert!(in_resolved_form("/srv/data/"));
    assert!(in_resolved_form("/srv//data"));
    assert!(in_resolved_form("/srv/..data/.report"));
    assert!(!in_resolved_form(""));
    assert!(!in_resolved_form("."));
    assert!(!in_resolved_form("srv/data"));
    assert!(!in_resolved_form("./srv"));
    assert!(!in_resolved_form("/.."));
    assert!(!in_resolved_form("/srv/../data"));
    assert!(!in_resolved_form("/srv/data/.."));
}

#[test]
fn resolved_form_agrees_with_the_standard_components() {
    let paths = [
        "", "/", ".", "..", "a", "/a", "a/", "/a/b", "/a/b/", "/a//b", "/a/./b", "./a", "/.",
        "/..", "/a/..", "/a/../b", "//a", "/.a", "/..a", "/a/...", "../a", "/a/b/../c",
    ];
    for path in paths {
        let mut components = Path::new(path).components();
        let expected = matches!(components.next(), Some(std::path::Component::RootDir))
            && components.all(|component| matches!(component, std::path::Component::Normal(_)));
        assert_eq!(in_resolved_form(path), expected, "{:?}", path);
    }
}

#[test]
fn what_the_system_resolves_is_in_resolved_form() {
    for path in ["/", ".", "..", "/usr/..", "/./usr/.", "/proc/self", "/dev/fd", "/etc"] {
        if let Some(resolved) = canonical(path) {
            assert!(in_resolved_form(&resolved), "{:?}", resolved);
            assert_eq!(RootLayer::new(path).unwrap().path(), resolved);
        }
    }
}

#[test]
fn layer_refuses_a_root_in_another_form() {
    for root in ["", "srv/data", "/srv/../data", "./srv"] {
        let error = RootLayer::from_resolved(Ok(text(root))).unwrap_err();
        assert_eq!(error.kind(), std::io::ErrorKind::InvalidData);
    }
}
