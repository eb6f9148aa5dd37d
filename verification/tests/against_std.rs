//! The lexical model held against `std::path` on every short text over the
//! characters that matter: a letter, the dot and the separator.
//!
//! The library departs from `std` in three ways, and the expected values say
//! where: `..` is a name, no path is empty (`.` stands where `std` leaves
//! nothing), and every spelling of the root and of `.` is its own parent.

use pathlibrs::{Path, PathError};

/// Every text of at most `max_len` characters but the empty one, which no
/// path holds.
fn texts(max_len: usize) -> Vec<String> {
    let alphabet = ['a', '.', '/'];
    let mut all = Vec::new();
    let mut layer = vec![String::new()];
    for _ in 0..max_len {
        let mut next = Vec::new();
        for t in &layer {
            for c in alphabet {
                let mut u = t.clone();
                u.push(c);
                next.push(u);
            }
        }
        all.extend(next.iter().cloned());
        layer = next;
    }
    all
}

fn path(text: &str) -> Path {
    Path::new(&[text])
}

/// Whether the last component is `..`, which `std` does not count as a name.
fn ends_in_dotdot(text: &str) -> bool {
    let last = std::path::Path::new(text).components().next_back();
    matches!(last, Some(std::path::Component::ParentDir))
}

/// Whether the one component is the root or `.`.
fn is_head_alone(text: &str) -> bool {
    let mut components = std::path::Path::new(text).components();
    let first = components.next();
    let only = components.next().is_none();
    only && matches!(first, Some(std::path::Component::RootDir) | Some(std::path::Component::CurDir))
}

fn stored(text: String) -> String {
    if text.is_empty() {
        ".".to_string()
    } else {
        text
    }
}

fn std_text(p: &std::path::Path) -> String {
    p.to_str().unwrap().to_string()
}

#[test]
fn name_agrees_with_std_file_name() {
    for t in texts(7) {
        let mut expected = std::path::Path::new(&t).file_name().map(|n| n.to_str().unwrap().to_string());
        if ends_in_dotdot(&t) {
            expected = Some("..".to_string());
        }
        match path(&t).name() {
            Ok(n) => assert_eq!(Some(n), expected, "name of {:?}", t),
            Err(e) => {
                assert_eq!(e, PathError::NoComponent);
                assert_eq!(None, expected, "name of {:?}", t);
            }
        }
    }
}

#[test]
fn stem_agrees_with_std_file_stem() {
    for t in texts(7) {
        let mut expected = std::path::Path::new(&t).file_stem().map(|n| n.to_str().unwrap().to_string());
        if ends_in_dotdot(&t) {
            expected = Some("..".to_string());
        }
        match path(&t).stem() {
            Ok(n) => assert_eq!(Some(n), expected, "stem of {:?}", t),
            Err(e) => {
                assert_eq!(e, PathError::NoComponent);
                assert_eq!(None, expected, "stem of {:?}", t);
            }
        }
    }
}

#[test]
fn suffix_is_std_extension_with_its_dot() {
    for t in texts(7) {
        let expected = std::path::Path::new(&t)
            .extension()
            .map(|n| format!(".{}", n.to_str().unwrap()));
        match path(&t).suffix() {
            Ok(n) => assert_eq!(Some(n), expected, "suffix of {:?}", t),
            Err(e) => {
                assert_eq!(e, PathError::NoSuffix);
                assert_eq!(None, expected, "suffix of {:?}", t);
            }
        }
    }
}

#[test]
fn parent_agrees_with_std_parent() {
    for t in texts(7) {
        let expected = if is_head_alone(&t) {
            t.clone()
        } else {
            stored(std_text(std::path::Path::new(&t).parent().unwrap()))
        };
        assert_eq!(path(&t).parent().unwrap().to_string(), expected, "parent of {:?}", t);
    }
}

#[test]
fn parts_agree_with_std_components() {
    for t in texts(7) {
        let expected: Vec<String> = std::path::Path::new(&t)
            .iter()
            .map(|c| c.to_str().unwrap().to_string())
            .collect();
        assert_eq!(path(&t).parts(), expected, "parts of {:?}", t);
    }
}

#[test]
fn is_absolute_agrees_with_std() {
    for t in texts(5) {
        assert_eq!(path(&t).is_absolute(), std::path::Path::new(&t).is_absolute(), "{:?}", t);
    }
}

#[test]
fn truediv_agrees_with_std_join() {
    let all = texts(4);
    for a in &all {
        for b in &all {
            let expected = std_text(&std::path::Path::new(a).join(b));
            assert_eq!(path(a).truediv(b).to_string(), expected, "{:?} / {:?}", a, b);
            assert_eq!(path(a).rtruediv(b).to_string(), expected, "{:?} / {:?}", a, b);
        }
    }
}

#[test]
fn samefile_agrees_with_std_equality() {
    let all = texts(4);
    for a in &all {
        for b in &all {
            let expected = std::path::PathBuf::from(a) == std::path::PathBuf::from(b);
            assert_eq!(path(a).samefile(&path(b)), expected, "{:?} and {:?}", a, b);
        }
    }
}

#[test]
fn with_name_agrees_with_std_set_file_name() {
    let all = texts(4);
    for a in texts(5) {
        for b in &all {
            let mut buf = std::path::PathBuf::from(&a);
            let had_name = buf.file_name().is_some() || ends_in_dotdot(&a);
            if ends_in_dotdot(&a) {
                buf = buf.parent().unwrap().to_path_buf();
                buf.push(b);
            } else {
                buf.set_file_name(b);
            }
            match path(&a).with_name(b) {
                Ok(p) => {
                    assert!(had_name, "{:?} has no name", a);
                    let expected = stored(std_text(&buf));
                    assert_eq!(p.to_string(), expected, "{:?} with name {:?}", a, b);
                }
                Err(e) => {
                    assert_eq!(e, PathError::NoComponent);
                    assert!(!had_name, "{:?} has a name", a);
                }
            }
        }
    }
}

#[test]
fn with_suffix_agrees_with_std_set_extension() {
    let extensions = ["", "a", "aa", "a.a", "txt"];
    for a in texts(7) {
        if ends_in_dotdot(&a) {
            continue;
        }
        for ext in extensions {
            let mut buf = std::path::PathBuf::from(&a);
            buf.set_extension(ext);
            let suffix = if ext.is_empty() { String::new() } else { format!(".{}", ext) };
            let got = path(&a).with_suffix(&suffix).unwrap();
            assert_eq!(got.to_string(), std_text(&buf), "{:?} with suffix {:?}", a, suffix);
        }
    }
}

#[test]
fn joinpath_agrees_with_std_push() {
    let all = texts(3);
    for a in &all {
        for b in &all {
            for c in &all {
                let mut buf = std::path::PathBuf::from(a);
                buf.push(b);
                buf.push(c);
                let got = path(a).joinpath(&[b.as_str(), c.as_str()]);
                assert_eq!(got.to_string(), std_text(&buf), "{:?} {:?} {:?}", a, b, c);
            }
        }
    }
}

#[test]
fn equality_agrees_with_std_equality() {
    let all = texts(4);
    for a in &all {
        for b in &all {
            let expected = std::path::Path::new(a) == std::path::Path::new(b);
            assert_eq!(path(a) == path(b), expected, "{:?} and {:?}", a, b);
        }
    }
}
