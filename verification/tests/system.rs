use pathlibrs::{os_reply, ErrorClass, Path, PathError};

fn path(text: &str) -> Path {
    Path::new(&[text])
}

fn texts(r: Result<Vec<Path>, PathError>) -> Result<Vec<String>, PathError> {
    r.map(|ps| ps.iter().map(|p| p.to_string()).collect())
}

fn listing(names: &[&str]) -> Option<Vec<Option<String>>> {
    Some(names.iter().map(|n| Some(n.to_string())).collect())
}

fn owned(items: &[&str]) -> Vec<String> {
    items.iter().map(|s| s.to_string()).collect()
}

#[test]
fn resolve_gives_the_canonical_form() {
    let r = path("a/../b").resolve(Some("/work/b".to_string()));
    assert_eq!(r.unwrap().to_string(), "/work/b");
}

#[test]
fn resolve_of_a_missing_path_is_an_os_failure() {
    assert_eq!(path("no/such/file").resolve(None).err(), Some(PathError::OSFailure));
}

#[test]
fn resolve_never_meets_an_empty_path() {
    for text in ["", "a", ".."] {
        for p in [path(text), path(text).parent().unwrap()] {
            assert_eq!(p.resolve(None).err(), Some(PathError::OSFailure));
            assert_eq!(p.resolve(Some("/cwd".to_string())).unwrap().to_string(), "/cwd");
        }
    }
}

#[test]
fn an_empty_answer_is_stored_as_dot() {
    assert_eq!(path("a").resolve(Some(String::new())).unwrap().to_string(), ".");
    assert_eq!(Path::cwd(Some(String::new())).unwrap().to_string(), ".");
    assert_eq!(Path::home(Some(String::new())).unwrap().to_string(), ".");
    assert_eq!(texts(Path::from_matches(listing(&["", "/a"]))), Ok(owned(&[".", "/a"])));
    assert_eq!(path("d").iterdir(listing(&[""])).map(|c| c.len()), Ok(1));
}

#[test]
fn cwd_and_home_wrap_what_the_system_said() {
    assert_eq!(Path::cwd(Some("/work".to_string())).unwrap().to_string(), "/work");
    assert_eq!(Path::cwd(None).err(), Some(PathError::OSFailure));
    assert_eq!(Path::home(Some("/home/u".to_string())).unwrap().to_string(), "/home/u");
    assert_eq!(Path::home(None).err(), Some(PathError::OSFailure));
}

#[test]
fn os_reply_maps_silence_to_failure() {
    assert_eq!(os_reply(Some(true)), Ok(true));
    assert_eq!(os_reply(Some("text".to_string())), Ok("text".to_string()));
    assert_eq!(os_reply::<bool>(None), Err(PathError::OSFailure));
}

#[test]
fn iterdir_joins_each_name_in_order() {
    let dir = path("/tmp/d");
    let got = texts(dir.iterdir(listing(&["a.txt", "b.log", "sub"])));
    assert_eq!(got, Ok(owned(&["/tmp/d/a.txt", "/tmp/d/b.log", "/tmp/d/sub"])));
}

#[test]
fn iterdir_leaves_out_dot_and_dotdot() {
    let dir = path("d/");
    let got = texts(dir.iterdir(listing(&[".", "..", "x", "...", ".hidden"])));
    assert_eq!(got, Ok(owned(&["d/x", "d/...", "d/.hidden"])));
}

#[test]
fn iterdir_of_an_empty_directory_is_empty() {
    assert_eq!(texts(path("d").iterdir(listing(&[]))), Ok(vec![]));
}

#[test]
fn iterdir_fails_when_the_listing_fails() {
    assert_eq!(texts(path("not-a-dir").iterdir(None)), Err(PathError::OSFailure));
    let broken = Some(vec![Some("a".to_string()), None, Some("b".to_string())]);
    assert_eq!(texts(path("d").iterdir(broken)), Err(PathError::OSFailure));
}

#[test]
fn glob_pattern_is_base_separator_pattern() {
    let p = path("d");
    assert_eq!(p.glob_pattern(Some("/tmp/d".to_string()), "*.txt"), Ok("/tmp/d/*.txt".to_string()));
    assert_eq!(path(".").glob_pattern(Some("/".to_string()), "*"), Ok("//*".to_string()));
}

#[test]
fn rglob_pattern_puts_the_recursive_wildcard_between() {
    let p = path("d");
    assert_eq!(p.rglob_pattern(Some("/tmp/d".to_string()), "*.txt"), Ok("/tmp/d/**/*.txt".to_string()));
}

#[test]
fn glob_patterns_fail_as_resolve_does() {
    assert_eq!(path("d").glob_pattern(None, "*"), Err(PathError::OSFailure));
    assert_eq!(path("d").rglob_pattern(None, "*"), Err(PathError::OSFailure));
}

#[test]
fn no_match_is_an_empty_result() {
    assert_eq!(texts(Path::from_matches(Some(vec![]))), Ok(vec![]));
}

#[test]
fn matches_come_back_in_the_order_found() {
    let found = listing(&["/tmp/d/a.txt", "/tmp/d/sub/c.txt"]);
    assert_eq!(texts(Path::from_matches(found)), Ok(owned(&["/tmp/d/a.txt", "/tmp/d/sub/c.txt"])));
}

#[test]
fn a_failed_search_is_an_os_failure() {
    assert_eq!(texts(Path::from_matches(None)), Err(PathError::OSFailure));
    let broken = Some(vec![Some("/a".to_string()), None]);
    assert_eq!(texts(Path::from_matches(broken)), Err(PathError::OSFailure));
}

#[test]
fn directory_scenario_with_reported_entries() {
    let dir = path("work");
    let canonical = || Some("/tmp/work".to_string());

    let children = texts(dir.resolve(canonical()).unwrap().iterdir(listing(&["a.txt", "b.log", "sub"])));
    assert_eq!(children, Ok(owned(&["/tmp/work/a.txt", "/tmp/work/b.log", "/tmp/work/sub"])));

    assert_eq!(dir.glob_pattern(canonical(), "*.txt"), Ok("/tmp/work/*.txt".to_string()));
    let flat = texts(Path::from_matches(listing(&["/tmp/work/a.txt"])));
    assert_eq!(flat, Ok(owned(&["/tmp/work/a.txt"])));

    assert_eq!(dir.rglob_pattern(canonical(), "*.txt"), Ok("/tmp/work/**/*.txt".to_string()));
    let mut deep = texts(Path::from_matches(listing(&["/tmp/work/sub/c.txt", "/tmp/work/a.txt"]))).unwrap();
    deep.sort();
    assert_eq!(deep, owned(&["/tmp/work/a.txt", "/tmp/work/sub/c.txt"]));
}

#[test]
fn errors_fall_into_three_classes() {
    assert_eq!(PathError::OSFailure.class(), ErrorClass::System);
    assert_eq!(PathError::NotImplemented.class(), ErrorClass::NotImplemented);
    for e in [PathError::EmptyPath, PathError::NoComponent, PathError::NoSuffix, PathError::InvalidSuffix] {
        assert_eq!(e.class(), ErrorClass::Value);
    }
}
