use changelog_gen::document::{HeaderFormat, Release};
use changelog_gen::merge::converge_releases;
use changelog_gen::version::Version;

fn release(version: Version, notes: &[(&str, &str)]) -> Release {
    let mut r = Release::dated(version, Some("2026-01-01".to_string()));
    for (section, note) in notes {
        r.add_note(section.to_string(), note.to_string());
    }
    r
}

#[test]
fn two_releases_converge_into_one() {
    let releases = vec![
        release(Version::new(1, 0, 0), &[("Fixed", "resolve bug")]),
        release(Version::new(0, 1, 0), &[("Added", "initial feature")]),
    ];
    let doc = converge_releases(&releases);
    assert_eq!(doc.title, "Changelog");
    assert_eq!(doc.releases.len(), 1);
    let merged = &doc.releases[0];
    assert_eq!(merged.date, None);
    assert_eq!(merged.header, HeaderFormat::Custom("## [converged]".to_string()));
    assert_eq!(merged.version, Version::new(0, 0, 0));
    assert_eq!(merged.sections.len(), 2);
    assert_eq!(
        merged.sections.get("Added"),
        Some(&vec!["initial feature".to_string()])
    );
    assert_eq!(
        merged.sections.get("Fixed"),
        Some(&vec!["resolve bug".to_string()])
    );
    assert_eq!(
        doc.to_markdown(),
        "# Changelog\n\n## [converged]\n\n### Added\n- initial feature\n\n### Fixed\n- resolve bug\n"
    );
}

#[test]
fn converging_goes_release_by_release_and_deduplicates() {
    let releases = vec![
        release(
            Version::new(2, 0, 0),
            &[("Fixed", "Crash on start"), ("Added", "export")],
        ),
        release(
            Version::new(1, 0, 0),
            &[("Fixed", "crash  on START"), ("Fixed", "typo"), ("Added", "import")],
        ),
    ];
    let doc = converge_releases(&releases);
    let merged = &doc.releases[0];
    assert_eq!(
        merged.sections.get("Added"),
        Some(&vec!["export".to_string(), "import".to_string()])
    );
    assert_eq!(
        merged.sections.get("Fixed"),
        Some(&vec!["Crash on start".to_string(), "typo".to_string()])
    );
}

#[test]
fn converging_nothing_gives_a_release_without_sections() {
    let doc = converge_releases(&[]);
    assert_eq!(doc.releases.len(), 1);
    assert!(doc.releases[0].sections.is_empty());
    assert_eq!(doc.to_markdown(), "# Changelog\n\n## [converged]\n");
    let empty = vec![Release::dated(Version::new(1, 0, 0), None)];
    assert!(converge_releases(&empty).releases[0].sections.is_empty());
}
