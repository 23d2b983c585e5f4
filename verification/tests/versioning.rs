use cookbook::dev_tools_logging::versioning::{
    is_release, parse, version_test_1, VersionError, VersionParts,
};

#[test]
fn a_plain_version() {
    assert_eq!(version_test_1(), Ok(true));
    assert_eq!(
        parse("0.2.6"),
        Ok(VersionParts {
            major: 0,
            minor: 2,
            patch: 6,
            pre: String::new(),
            build: String::new()
        })
    );
}

#[test]
fn tags_and_metadata() {
    let parts = parse("1.2.3-alpha.1+build.5").unwrap();
    assert_eq!((parts.major, parts.minor, parts.patch), (1, 2, 3));
    assert_eq!(parts.pre, "alpha.1");
    assert_eq!(parts.build, "build.5");
    assert_eq!(is_release("1.2.3-alpha.1", 1, 2, 3), Ok(false));
    assert_eq!(is_release("1.2.3+b", 1, 2, 3), Ok(false));
    assert_eq!(is_release("1.2.3", 1, 2, 3), Ok(true));
    assert_eq!(is_release("1.2.3", 1, 2, 4), Ok(false));
    assert_eq!(is_release("1.2.3", 1, 3, 3), Ok(false));
    assert_eq!(is_release("1.2.3", 0, 2, 3), Ok(false));
}

#[test]
fn what_is_no_version() {
    assert_eq!(parse(""), Err(VersionError::Syntax));
    assert_eq!(parse("1.2"), Err(VersionError::Syntax));
    assert_eq!(parse("01.2.3"), Err(VersionError::Syntax));
    assert_eq!(parse("23456789999999999999.0.0"), Err(VersionError::Syntax));
    assert_eq!(is_release("a.b.c", 0, 0, 0), Err(VersionError::Syntax));
}
