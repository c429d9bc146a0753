use changelog_gen::version::Version;

fn v(text: &str) -> Version {
    Version::parse(text).expect("version")
}

#[test]
fn a_version_is_read_from_its_text() {
    let version = v("1.22.333");
    assert_eq!(version.major(), 1);
    assert_eq!(version.minor(), 22);
    assert_eq!(version.patch(), 333);
    assert_eq!(version.pre(), "");
    assert_eq!(version.build(), "");
    assert_eq!(version, Version::new(1, 22, 333));
    let version = v("0.0.0-alpha.1.x-y+exp.sha.5114f85");
    assert_eq!(version.pre(), "alpha.1.x-y");
    assert_eq!(version.build(), "exp.sha.5114f85");
    let version = v("18446744073709551615.0.0");
    assert_eq!(version.major(), u64::MAX);
}

#[test]
fn what_is_no_version_is_refused() {
    for text in [
        "",
        "1",
        "1.0",
        "1.0.0.0",
        "01.0.0",
        "1.0.01",
        "1.0.unknown",
        "1.0.0-",
        "1.0.0+",
        "1.0.0-alpha_123",
        "1.0.0-01",
        "1.0.0-a..b",
        "23456789999999999999.0.0",
        " 1.0.0",
        "1.0.0 ",
        "v1.0.0",
        "=1.0.0",
        "1.0.0-a+",
    ] {
        assert!(Version::parse(text).is_none(), "{}", text);
    }
}

#[test]
fn the_text_of_a_version_is_what_it_was_read_from() {
    for text in [
        "0.0.0",
        "1.2.3",
        "10.20.30",
        "1.0.0-alpha",
        "1.0.0-0",
        "1.0.0-alpha.1",
        "1.0.0+20130313144700",
        "1.0.0+001",
        "1.0.0-beta+exp.sha.5114f85",
        "18446744073709551615.18446744073709551615.18446744073709551615",
    ] {
        assert_eq!(v(text).to_string(), text);
    }
    assert_eq!(Version::new(4, 5, 6).to_string(), "4.5.6");
}

#[test]
fn versions_are_ordered_by_their_numbers_first() {
    assert_eq!(v("1.10.0").compare(&v("1.9.0")), 1);
    assert_eq!(v("1.9.0").compare(&v("1.10.0")), -1);
    assert_eq!(v("2.0.0").compare(&v("1.99.99")), 1);
    assert_eq!(v("1.2.3").compare(&v("1.2.4")), -1);
    assert_eq!(v("1.2.3").compare(&v("1.2.3")), 0);
    assert_eq!(v("2.0.0-alpha").compare(&v("1.0.0")), 1);
}

#[test]
fn a_prerelease_comes_before_its_release() {
    assert_eq!(v("1.0.0-alpha").compare(&v("1.0.0")), -1);
    assert_eq!(v("1.0.0").compare(&v("1.0.0-alpha")), 1);
    assert_eq!(v("1.0.0-alpha").compare(&v("1.0.0-alpha.1")), -1);
    assert_eq!(v("1.0.0-alpha.1").compare(&v("1.0.0-alpha.beta")), -1);
    assert_eq!(v("1.0.0-alpha.2").compare(&v("1.0.0-alpha.10")), -1);
    assert_eq!(v("1.0.0-beta").compare(&v("1.0.0-alpha.beta")), 1);
    assert_eq!(v("1.0.0-rc.1").compare(&v("1.0.0-rc.1")), 0);
}

#[test]
fn build_identifiers_order_versions_that_are_else_the_same() {
    assert_eq!(v("1.0.0").compare(&v("1.0.0+1")), -1);
    assert_eq!(v("1.0.0+1").compare(&v("1.0.0+2")), -1);
    assert_eq!(v("1.0.0+2").compare(&v("1.0.0+10")), -1);
    assert_eq!(v("1.0.0+b").compare(&v("1.0.0+a")), 1);
    assert_eq!(v("1.0.0+a").compare(&v("1.0.0+a")), 0);
    assert_eq!(v("1.0.0-rc+z").compare(&v("1.0.0+a")), -1);
}

#[test]
fn versions_are_the_same_if_all_their_parts_are() {
    assert!(v("1.0.0-a+b").same(&v("1.0.0-a+b")));
    assert!(!v("1.0.0-a+b").same(&v("1.0.0-a+c")));
    assert!(!v("1.0.0").same(&v("1.0.1")));
    assert!(Version::new(1, 0, 0).same(&v("1.0.0")));
}

#[test]
fn other_numbers_keep_the_identifiers() {
    let version = v("1.2.3-rc.1+b7").with_numbers(9, 8, 7);
    assert_eq!(version.to_string(), "9.8.7-rc.1+b7");
    let copy = version.clone();
    assert_eq!(copy, version);
}
