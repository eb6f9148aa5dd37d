use pathlibrs::{Path, PathError};

#[test]
fn relative_to_is_not_implemented() {
    let p = Path::new(&["a/b"]);
    assert_eq!(p.relative_to(&Path::new(&["a"])).err(), Some(PathError::NotImplemented));
}

#[test]
fn is_relative_to_is_not_implemented() {
    let p = Path::new(&["a/b"]);
    assert_eq!(p.is_relative_to(&Path::new(&["a"])), Err(PathError::NotImplemented));
}

#[test]
fn is_reserved_is_not_implemented() {
    assert_eq!(Path::new(&["a"]).is_reserved(), Err(PathError::NotImplemented));
}

#[test]
fn match_is_not_implemented() {
    assert_eq!(Path::new(&["a.txt"]).match_("*.txt"), Err(PathError::NotImplemented));
}

#[test]
fn write_text_is_not_implemented() {
    assert_eq!(Path::new(&["a.txt"]).write_text("hello"), Err(PathError::NotImplemented));
}
