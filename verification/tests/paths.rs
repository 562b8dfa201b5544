use imaging_portal::paths::{copied, path_file_name, path_join, path_parent};
use std::path::Path;

/// Every path of up to seven characters of `/`, `.` and `a`.
fn paths() -> Vec<String> {
    let mut all = vec![String::new()];
    let mut last = all.clone();
    for _ in 0..7 {
        let mut next = Vec::new();
        for t in &last {
            for c in ["/", ".", "a"] {
                next.push(format!("{}{}", t, c));
            }
        }
        all.extend(next.iter().cloned());
        last = next;
    }
    all
}

fn text(b: Vec<u8>) -> String {
    String::from_utf8(b).unwrap()
}

#[test]
fn components_match_std() {
    for p in paths() {
        let path = Path::new(&p);
        let name = path.file_name().map(|n| n.to_str().unwrap().to_owned());
        let parent = path.parent().map(|n| n.to_str().unwrap().to_owned());
        assert_eq!(path_file_name(p.as_bytes()).map(text), name, "{:?}", p);
        assert_eq!(path_parent(p.as_bytes()).map(text), parent, "{:?}", p);
    }
}

#[test]
fn joining_matches_std() {
    for base in ["", "/", ".", "a", "a/", "/a", "/a/b//", "a/."] {
        for part in ["", "/", "b", "/b", "b/c", "..", "./b"] {
            let expected = Path::new(base).join(part).to_str().unwrap().to_owned();
            assert_eq!(
                text(path_join(base.as_bytes(), part.as_bytes())),
                expected,
                "{:?} {:?}",
                base,
                part
            );
        }
    }
}

#[test]
fn paths_need_not_be_text() {
    assert_eq!(path_join(b"/x\xff", b"shared"), b"/x\xff/shared".to_vec());
    assert_eq!(path_file_name(b"/a/\xfe\xff/"), Some(vec![0xfe, 0xff]));
    assert_eq!(path_parent(b"/a\xff/b"), Some(b"/a\xff".to_vec()));
    assert_eq!(copied(b"\xff\x00"), vec![0xff, 0]);
}

#[test]
fn joined_name_comes_back() {
    for base in ["", "/", "a", "a/b/", "/a/./"] {
        for name in ["x", "...", "a.b", ".x"] {
            let joined = path_join(base.as_bytes(), name.as_bytes());
            assert_eq!(path_file_name(&joined).map(text).as_deref(), Some(name));
            assert!(path_parent(&joined).is_some());
        }
    }
}
