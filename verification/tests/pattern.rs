use chore::pattern::Pattern;

#[test]
fn equality() {
    for (left, right, expect) in &[
        ("/^foo/", "/^foo/", true),
        ("/foo/", "/foo/", true),
        ("/bar$/", "/bar$/", true),
        ("/^foo/", "/^bar/", false),
        ("/foo/", "/bar/", false),
        ("/bar$/", "/^bar/", false),
    ] {
        assert_eq!(
            Pattern::new(left).unwrap() == Pattern::new(right).unwrap(),
            *expect,
        );
    }
}

#[test]
fn is_match() {
    for (regex, text, expect) in &[
        ("/^foo/", "foobar", true),
        ("/foo/", "foobar", true),
        ("/bar$/", "foobar", true),
        ("/^foo/", "barfoo", false),
        ("/foo/", "bar", false),
        ("/bar$/", "barfoo", false),
    ] {
        assert_eq!(Pattern::new(regex).unwrap().unwrap().is_match(text), *expect);
    }
}
