use pathlibrs::Path;

#[test]
fn non_empty_text_is_kept_as_given() {
    for text in ["a", "a/b", "/a/./b", "a/../b", "a//b/", "./x", "..", "/", ".", "dir/file.tar.gz", "été/ß"] {
        let p = Path::new(&[text]);
        assert_eq!(p.to_string(), text);
        assert_eq!(p.as_str(), text);
    }
}

#[test]
fn no_argument_gives_dot() {
    assert_eq!(Path::new(&[]).to_string(), ".");
}

#[test]
fn empty_argument_gives_dot() {
    assert_eq!(Path::new(&[""]).to_string(), ".");
}

#[test]
fn empty_first_argument_gives_dot_whatever_follows() {
    assert_eq!(Path::new(&["", "x"]).to_string(), ".");
}

#[test]
fn only_the_first_argument_counts() {
    assert_eq!(Path::new(&["a", "b", "/c"]).to_string(), "a");
}

#[test]
fn repr_wraps_the_text() {
    assert_eq!(Path::new(&["a/b"]).repr(), "Path('a/b')");
    assert_eq!(Path::new(&[]).repr(), "Path('.')");
}

#[test]
fn a_path_from_one_text_stores_it() {
    assert_eq!(Path::from_text("b/c".to_string()).to_string(), "b/c");
    assert_eq!(Path::from_text(String::new()).to_string(), ".");
}

#[test]
fn no_path_is_empty() {
    let made = [
        Path::new(&[]),
        Path::new(&[""]),
        Path::from_text(String::new()),
        Path::new(&["a"]).parent().unwrap(),
        Path::new(&[".."]).parent().unwrap(),
        Path::new(&["a"]).with_name("").unwrap(),
        Path::new(&["a"]).with_stem("").unwrap(),
        Path::new(&["a.b"]).with_suffix("").unwrap(),
        Path::new(&["a"]).joinpath(&[""]),
        Path::new(&["a"]).truediv(""),
        Path::new(&["a"]).resolve(Some(String::new())).unwrap(),
        Path::cwd(Some(String::new())).unwrap(),
        Path::home(Some(String::new())).unwrap(),
    ];
    for p in made {
        assert!(!p.to_string().is_empty());
        assert!(!p.parts().is_empty());
    }
}

#[test]
fn clone_is_an_independent_copy() {
    let p = Path::new(&["a/b"]);
    let q = p.clone();
    let r = q.truediv("c");
    assert_eq!(p.to_string(), "a/b");
    assert_eq!(q.to_string(), "a/b");
    assert_eq!(r.to_string(), "a/b/c");
}
