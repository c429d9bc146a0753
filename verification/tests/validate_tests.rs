use changelog_gen::document::{ChangelogDocument, Release};
use changelog_gen::version::Version;

fn parsed(text: &str) -> ChangelogDocument {
    ChangelogDocument::parse(text).expect("parse")
}

#[test]
fn a_sound_changelog_is_valid() {
    let doc = parsed("# C\n## [2.0.0]\n### A\n- x\n## [1.0.0]\n### A\n- y\n");
    assert!(doc.validate(false).is_ok());
    assert!(doc.validate(true).is_ok());
    assert!(ChangelogDocument::scaffold().validate(true).is_ok());
}

#[test]
fn a_blank_title_is_refused_first() {
    let doc = ChangelogDocument {
        title: " \t ".to_string(),
        releases: vec![
            Release::dated(Version::new(1, 0, 0), None),
            Release::dated(Version::new(1, 0, 0), None),
        ],
    };
    for strict in [false, true] {
        let err = doc.validate(strict).expect_err("blank title");
        assert_eq!(err.line, 1);
        assert_eq!(err.expected, "a non-empty title");
        assert_eq!(err.found, "empty title");
        assert_eq!(err.fix, "use '# Changelog' as the first heading");
    }
}

#[test]
fn a_repeated_version_is_refused_strict_or_not() {
    let doc = parsed("# C\n## [2.0.0]\n### A\n- x\n## [1.0.0]\n### A\n- y\n## [1.0.0]\n### A\n- z\n");
    for strict in [false, true] {
        let err = doc.validate(strict).expect_err("duplicate");
        assert_eq!(err.line, 4);
        assert_eq!(err.expected, "unique release versions");
        assert_eq!(err.found, "duplicate 1.0.0");
        assert_eq!(err.fix, "remove duplicates or merge notes into one release");
        assert!(err.message().contains("duplicate 1.0.0"));
    }
}

#[test]
fn a_repeated_version_comes_before_the_checks_of_sections_and_order() {
    let doc = parsed("# C\n## [1.0.0]\n## [2.0.0]\n### A\n## [1.0.0]\n");
    let err = doc.validate(true).expect_err("duplicate");
    assert_eq!(err.line, 4);
    assert_eq!(err.found, "duplicate 1.0.0");
}

#[test]
fn versions_that_differ_in_build_are_not_repeated() {
    let doc = parsed("# C\n## [1.0.0+b]\n## [1.0.0+a]\n");
    assert!(doc.validate(false).is_ok());
}

#[test]
fn strict_asks_for_sections() {
    let doc = parsed("# C\n## [2.0.0]\n### A\n- x\n## [1.0.0]\n");
    assert!(doc.validate(false).is_ok());
    let err = doc.validate(true).expect_err("no sections");
    assert_eq!(err.line, 3);
    assert_eq!(
        err.expected,
        "at least one section per release in --strict mode"
    );
    assert_eq!(err.found, "release 1.0.0 has no sections");
    assert_eq!(err.fix, "add a section like '### Added' with notes");
}

#[test]
fn strict_asks_for_notes() {
    let doc = parsed("# C\n## [1.0.0]\n### Added\n- x\n### Fixed\n");
    assert!(doc.validate(false).is_ok());
    let err = doc.validate(true).expect_err("no notes");
    assert_eq!(err.line, 2);
    assert_eq!(err.expected, "non-empty section notes in --strict mode");
    assert_eq!(err.found, "section 'Fixed' has no notes");
    assert_eq!(err.fix, "add at least one note under this section");
}

#[test]
fn a_blank_section_name_is_refused_strict_or_not() {
    let mut release = Release::dated(Version::new(1, 0, 0), None);
    release.add_note("  ".to_string(), "x".to_string());
    let doc = ChangelogDocument {
        title: "C".to_string(),
        releases: vec![release],
    };
    for strict in [false, true] {
        let err = doc.validate(strict).expect_err("blank section");
        assert_eq!(err.line, 2);
        assert_eq!(err.expected, "non-empty section headings");
        assert_eq!(err.found, "empty section heading");
        assert_eq!(err.fix, "rename section to something like 'Added'");
    }
}

#[test]
fn releases_out_of_order_are_refused_strict_or_not() {
    let doc = parsed("# C\n## [1.0.0]\n### A\n- x\n## [1.0.1]\n### A\n- y\n");
    for strict in [false, true] {
        let err = doc.validate(strict).expect_err("order");
        assert_eq!(err.line, 2);
        assert_eq!(err.expected, "releases sorted descending by SemVer");
        assert_eq!(err.found, "out-of-order versions");
        assert_eq!(err.fix, "sort releases so highest version comes first");
        assert!(err.message().contains("SemVer"));
    }
}

#[test]
fn a_prerelease_stands_behind_its_release() {
    assert!(parsed("# C\n## [1.0.0]\n## [1.0.0-rc.1]\n").validate(false).is_ok());
    assert!(parsed("# C\n## [1.0.0-rc.1]\n## [1.0.0]\n")
        .validate(false)
        .is_err());
}

#[test]
fn the_issue_of_sections_comes_before_that_of_order() {
    let doc = parsed("# C\n## [1.0.0]\n## [2.0.0]\n");
    let err = doc.validate(true).expect_err("no sections");
    assert_eq!(err.found, "release 1.0.0 has no sections");
    let err = doc.validate(false).expect_err("order");
    assert_eq!(err.found, "out-of-order versions");
}
