use changelog_gen::document::{ChangelogDocument, HeaderFormat, ParseIssue, Release};
use changelog_gen::render::render_release_header;
use changelog_gen::version::Version;

fn release(header: HeaderFormat, date: Option<&str>) -> Release {
    let mut r = Release::dated(Version::new(1, 2, 3), date.map(|d| d.to_string()));
    r.header = header;
    r
}

#[test]
fn an_empty_changelog_is_its_title() {
    assert_eq!(ChangelogDocument::scaffold().to_markdown(), "# Changelog\n");
}

#[test]
fn the_default_heading_shows_the_date_if_there_is_one() {
    assert_eq!(
        render_release_header(&release(HeaderFormat::Default, Some("2026-01-01"))),
        "## [1.2.3] - 2026-01-01"
    );
    assert_eq!(
        render_release_header(&release(HeaderFormat::Default, None)),
        "## [1.2.3]"
    );
}

#[test]
fn the_plain_heading_shows_the_date_if_there_is_one() {
    assert_eq!(
        render_release_header(&release(HeaderFormat::Plain, Some("2026-01-01"))),
        "## 1.2.3 - 2026-01-01"
    );
    assert_eq!(
        render_release_header(&release(HeaderFormat::Plain, None)),
        "## 1.2.3"
    );
}

#[test]
fn the_heading_of_the_version_alone_never_shows_a_date() {
    assert_eq!(
        render_release_header(&release(HeaderFormat::VersionOnly, Some("2026-01-01"))),
        "## [1.2.3]"
    );
    assert_eq!(
        render_release_header(&release(HeaderFormat::VersionOnly, None)),
        "## [1.2.3]"
    );
}

#[test]
fn a_custom_heading_fills_in_version_and_date() {
    let template = HeaderFormat::Custom("Release {version} ({date}) / {version}".to_string());
    assert_eq!(
        render_release_header(&release(template, Some("2026-01-01"))),
        "Release 1.2.3 (2026-01-01) / 1.2.3"
    );
    let template = HeaderFormat::Custom("## {version} {date}".to_string());
    assert_eq!(render_release_header(&release(template, None)), "## 1.2.3 ");
    let template = HeaderFormat::Custom("## [converged]".to_string());
    assert_eq!(
        render_release_header(&release(template, Some("2026-01-01"))),
        "## [converged]"
    );
}

#[test]
fn sections_come_in_the_order_of_their_names_and_notes_as_added() {
    let mut r = release(HeaderFormat::Default, Some("2026-01-01"));
    r.add_note("Fixed".to_string(), "second".to_string());
    r.add_note("Added".to_string(), "zeta".to_string());
    r.add_note("Fixed".to_string(), "first".to_string());
    r.add_note("Added".to_string(), "alpha".to_string());
    let doc = ChangelogDocument {
        title: "Log".to_string(),
        releases: vec![r],
    };
    assert_eq!(
        doc.to_markdown(),
        "# Log\n\n## [1.2.3] - 2026-01-01\n\n### Added\n- zeta\n- alpha\n\n### Fixed\n- second\n- first\n"
    );
}

#[test]
fn releases_are_rendered_in_the_order_in_which_they_stand() {
    let doc = ChangelogDocument {
        title: "Log".to_string(),
        releases: vec![
            Release::dated(Version::new(1, 0, 0), None),
            Release::dated(Version::new(3, 0, 0), None),
            Release::dated(Version::new(2, 0, 0), None),
        ],
    };
    assert_eq!(
        doc.to_markdown(),
        "# Log\n\n## [1.0.0]\n\n## [3.0.0]\n\n## [2.0.0]\n"
    );
}

#[test]
fn whitespace_at_the_end_is_dropped() {
    let mut r = release(HeaderFormat::Custom("## {version} {date}".to_string()), None);
    r.header = HeaderFormat::Custom("## {version} \t".to_string());
    let doc = ChangelogDocument {
        title: "Log".to_string(),
        releases: vec![r],
    };
    assert_eq!(doc.to_markdown(), "# Log\n\n## 1.2.3\n");
    let blank = ChangelogDocument {
        title: "  ".to_string(),
        releases: vec![],
    };
    assert_eq!(blank.to_markdown(), "#\n");
}

#[test]
fn rendering_does_not_change_the_changelog() {
    let doc = ChangelogDocument::parse("# C\n## [1.0.0]\n### A\n- x\n").expect("parse");
    let first = doc.to_markdown();
    let second = doc.to_markdown();
    assert_eq!(first, second);
    assert_eq!(first, "# C\n\n## [1.0.0]\n\n### A\n- x\n");
}

#[test]
fn the_message_of_an_issue_tells_all_four_parts() {
    let issue = ParseIssue::new(12, "this", "that", "do so");
    assert_eq!(
        issue.message(),
        "Invalid changelog at line 12: expected this, found that. Fix: do so"
    );
    let issue = ParseIssue {
        line: 0,
        expected: String::new(),
        found: String::new(),
        fix: String::new(),
    };
    assert_eq!(
        issue.message(),
        "Invalid changelog at line 0: expected , found . Fix: "
    );
    let issue = ParseIssue::new(1234567890, "a", "b", "c");
    assert!(issue.message().starts_with("Invalid changelog at line 1234567890:"));
}
