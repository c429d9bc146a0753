use changelog_gen::commands::{apply_release, base_version, bump_fits, bump_patch, bump_version};
use changelog_gen::commands::{check_generate, confirm_removal, mapping_format};
use changelog_gen::commands::new_changelog;
use changelog_gen::commands::{next_version, read_request, remove_release, render_generated_sections};
use changelog_gen::commands::{select_releases, show_releases, try_bump_patch, validate_changelog};
use changelog_gen::commands::{workspace_members, MappingFormat, Request};
use changelog_gen::commit::Commit;
use changelog_gen::document::{ChangelogDocument, HeaderFormat};
use changelog_gen::error::ChangelogError;
use changelog_gen::sections::SectionMap;
use changelog_gen::version::Version;

fn v(text: &str) -> Version {
    Version::parse(text).expect("version")
}

fn commit(message: &str) -> Commit {
    Commit {
        message: message.to_string(),
        hash: "0".to_string(),
    }
}

fn sample() -> ChangelogDocument {
    ChangelogDocument::parse(
        "# Log\n\n## [0.2.0] - 2026-02-01\n\n### Added\n- add api\n\n## [0.1.0] - 2026-01-15\n\n### Fixed\n- resolve bug\n\n## [0.0.1] - 2026-01-01\n\n### Added\n- initial feature\n\n### Fixed\n- Resolve Bug\n",
    )
    .expect("parse")
}

fn invalid_arguments(e: ChangelogError) -> String {
    match e {
        ChangelogError::InvalidArguments(m) => m,
        other => panic!("not invalid arguments: {:?}", other),
    }
}

fn version_error(e: ChangelogError) -> String {
    match e {
        ChangelogError::VersionParseError(m) => m,
        other => panic!("not a version error: {:?}", other),
    }
}

#[test]
fn a_bump_raises_one_part_and_resets_those_behind_it() {
    assert_eq!(bump_version(v("1.2.3"), "major").unwrap(), v("2.0.0"));
    assert_eq!(bump_version(v("1.2.3"), "minor").unwrap(), v("1.3.0"));
    assert_eq!(bump_version(v("1.2.3"), "patch").unwrap(), v("1.2.4"));
    assert_eq!(bump_version(v("1.2.3-rc.1+b"), "patch").unwrap(), v("1.2.4-rc.1+b"));
    assert_eq!(bump_version(v("0.0.0"), "patch").unwrap(), v("0.0.1"));
}

#[test]
fn a_bump_must_name_a_part() {
    for bump in ["", "Major", "build", "patch "] {
        assert_eq!(
            invalid_arguments(bump_version(v("1.2.3"), bump).unwrap_err()),
            "--bump must be one of: major, minor, patch"
        );
    }
}

#[test]
fn a_bump_fits_unless_the_part_is_the_greatest_number() {
    let top = v("18446744073709551615.0.18446744073709551615");
    assert!(!bump_fits(&top, "major"));
    assert!(bump_fits(&top, "minor"));
    assert!(!bump_fits(&top, "patch"));
    assert!(bump_fits(&top, "other"));
    assert!(bump_fits(&v("1.2.3"), "major"));
}

#[test]
fn the_patch_of_a_version_text_is_bumped() {
    assert_eq!(bump_patch("1.2.3"), "1.2.4");
    assert_eq!(bump_patch("0.0.9"), "0.0.10");
    assert_eq!(bump_patch("1.0.0-rc.1"), "1.0.1-rc.1");
    assert_eq!(try_bump_patch("1.2.3"), Some("1.2.4".to_string()));
    assert_eq!(try_bump_patch("1.2"), None);
    assert_eq!(try_bump_patch("1.2.18446744073709551615"), None);
}

#[test]
fn a_new_changelog_is_markdown() {
    assert_eq!(new_changelog("markdown").unwrap(), "# Changelog\n");
    assert_eq!(
        invalid_arguments(new_changelog("html").unwrap_err()),
        "unsupported format 'html'; only 'markdown' is currently supported"
    );
}

#[test]
fn the_text_of_a_changelog_is_validated() {
    assert!(validate_changelog("# Changelog\n", false).is_ok());
    assert!(validate_changelog("# Changelog\n", true).is_ok());
    assert_eq!(
        invalid_arguments(
            validate_changelog("# Changelog\n\n## [1.0.0]\n\n- orphan\n", true).unwrap_err()
        ),
        "validation failed: Invalid changelog at line 5: expected a section heading before notes, found - orphan. Fix: insert a heading like '### Added' above this note"
    );
    assert!(validate_changelog("# C\n## [1.0.0]\n", false).is_ok());
    assert_eq!(
        invalid_arguments(validate_changelog("# C\n## [1.0.0]\n", true).unwrap_err()),
        "validation failed: Invalid changelog at line 2: expected at least one section per release in --strict mode, found release 1.0.0 has no sections. Fix: add a section like '### Added' with notes"
    );
}

#[test]
fn a_milestone_is_refused() {
    assert!(check_generate(false, false).is_ok());
    assert!(check_generate(false, true).is_ok());
    assert_eq!(
        invalid_arguments(check_generate(true, false).unwrap_err()),
        "--milestone requires --github"
    );
    match check_generate(true, true).unwrap_err() {
        ChangelogError::UnsupportedFeature(m) => assert_eq!(
            m,
            "milestone mode requires GitHub API integration, which is not yet enabled"
        ),
        other => panic!("{:?}", other),
    }
}

#[test]
fn grouped_notes_are_shown_as_a_fragment() {
    let mut grouped = SectionMap::new();
    grouped.add_note("Fixed".to_string(), "c".to_string());
    grouped.add_note("Added".to_string(), "a".to_string());
    grouped.add_note("Added".to_string(), "b".to_string());
    assert_eq!(
        render_generated_sections(&grouped),
        "### Added\n- a\n- b\n\n### Fixed\n- c\n"
    );
    assert_eq!(
        render_generated_sections(&SectionMap::new()),
        "### Other\n- No user-facing changes detected\n"
    );
    let mut bare = SectionMap::new();
    bare.ensure("Empty".to_string());
    assert_eq!(render_generated_sections(&bare), "### Empty\n");
}

#[test]
fn a_bump_starts_from_the_greatest_version() {
    assert_eq!(base_version(&sample()), v("0.2.0"));
    assert_eq!(base_version(&ChangelogDocument::scaffold()), v("0.0.0"));
    let unsorted = ChangelogDocument::parse("# C\n## [1.0.0]\n## [3.0.0-rc.1]\n## [2.5.0]\n").unwrap();
    assert_eq!(base_version(&unsorted), v("3.0.0-rc.1"));
}

#[test]
fn the_next_version_is_given_or_bumped() {
    let doc = sample();
    assert_eq!(next_version(&doc, Some("1.0.0"), None).unwrap(), v("1.0.0"));
    assert_eq!(next_version(&doc, None, Some("patch")).unwrap(), v("0.2.1"));
    assert_eq!(next_version(&doc, None, Some("minor")).unwrap(), v("0.3.0"));
    assert_eq!(next_version(&doc, None, Some("major")).unwrap(), v("1.0.0"));
    assert_eq!(
        next_version(&ChangelogDocument::scaffold(), None, Some("patch")).unwrap(),
        v("0.0.1")
    );
    assert_eq!(
        version_error(next_version(&doc, Some("1.x"), None).unwrap_err()),
        "1.x"
    );
    assert_eq!(
        invalid_arguments(next_version(&doc, None, Some("huge")).unwrap_err()),
        "--bump must be one of: major, minor, patch"
    );
    for (version, bump) in [(None, None), (Some("1.0.0"), Some("patch"))] {
        assert_eq!(
            invalid_arguments(next_version(&doc, version, bump).unwrap_err()),
            "use exactly one of --version or --bump"
        );
    }
}

#[test]
fn a_release_is_made_of_commits() {
    let mut doc = ChangelogDocument::scaffold();
    let commits = vec![
        commit("feat: initial feature"),
        commit("fix: resolve bug"),
        commit("fix: resolve bug"),
        commit("chore: tooling cleanup !changelog"),
    ];
    let text = apply_release(
        &mut doc,
        v("0.0.1"),
        "2026-01-01".to_string(),
        "plain",
        &commits,
        false,
    )
    .expect("release");
    assert_eq!(
        text,
        "# Changelog\n\n## 0.0.1 - 2026-01-01\n\n### Added\n- initial feature\n\n### Fixed\n- resolve bug\n"
    );
    assert_eq!(doc.to_markdown(), text);
    let text = apply_release(
        &mut doc,
        v("0.2.0"),
        "2026-02-01".to_string(),
        "default",
        &[commit("feat: add api")],
        false,
    )
    .expect("release");
    assert_eq!(
        text,
        "# Changelog\n\n## [0.2.0] - 2026-02-01\n\n### Added\n- add api\n\n## 0.0.1 - 2026-01-01\n\n### Added\n- initial feature\n\n### Fixed\n- resolve bug\n"
    );
    assert_eq!(doc.releases[0].header, HeaderFormat::Default);
}

#[test]
fn a_release_that_is_there_is_not_made_again() {
    let mut doc = sample();
    let before = doc.clone();
    let refusal = apply_release(&mut doc, v("0.1.0"), "d".to_string(), "default", &[], false)
        .unwrap_err();
    assert_eq!(
        invalid_arguments(refusal),
        "release 0.1.0 already exists (use --override to replace it)"
    );
    assert_eq!(doc, before);
    let text = apply_release(
        &mut doc,
        v("0.1.0"),
        "later".to_string(),
        "version-only",
        &[commit("docs: manual")],
        true,
    )
    .expect("override");
    assert_eq!(doc.releases.len(), 3);
    assert_eq!(doc.releases[1].date, Some("later".to_string()));
    assert!(text.contains("## [0.1.0]\n\n### Documentation\n- manual\n"));
}

#[test]
fn a_release_that_leaves_the_changelog_invalid_is_reported() {
    let mut doc = ChangelogDocument::parse("# C\n## [1.0.0]\n## [1.0.0]\n").unwrap();
    let issue = apply_release(&mut doc, v("2.0.0"), "d".to_string(), "default", &[], false)
        .unwrap_err();
    assert_eq!(
        invalid_arguments(issue),
        "Invalid changelog at line 4: expected unique release versions, found duplicate 1.0.0. Fix: remove duplicates or merge notes into one release"
    );
}

#[test]
fn a_request_is_read_from_a_version_or_a_range() {
    assert!(matches!(read_request(None, None).unwrap(), Request::All));
    match read_request(Some("1.0.0"), Some("ignored")).unwrap() {
        Request::Exact(x) => assert_eq!(x, v("1.0.0")),
        _ => panic!("not exact"),
    }
    match read_request(None, Some("2.0.0..1.0.0")).unwrap() {
        Request::Between(low, high) => {
            assert_eq!(low, v("1.0.0"));
            assert_eq!(high, v("2.0.0"));
        }
        _ => panic!("not a range"),
    }
    assert_eq!(
        invalid_arguments(read_request(None, Some("1.0.0-2.0.0")).err().unwrap()),
        "--range must use '<a>..<b>' format"
    );
    assert_eq!(version_error(read_request(None, Some("..1.0.0")).err().unwrap()), "");
    assert_eq!(
        version_error(read_request(None, Some("1.0.0...2.0.0")).err().unwrap()),
        ".2.0.0"
    );
    assert_eq!(version_error(read_request(Some("one"), None).err().unwrap()), "one");
}

#[test]
fn releases_are_selected_by_version_or_range() {
    let doc = sample();
    let names = |list: Vec<changelog_gen::document::Release>| -> Vec<String> {
        list.iter().map(|r| r.version.to_string()).collect()
    };
    assert_eq!(
        names(select_releases(&doc, None, None).unwrap()),
        vec!["0.2.0", "0.1.0", "0.0.1"]
    );
    assert_eq!(
        names(select_releases(&doc, Some("0.1.0"), None).unwrap()),
        vec!["0.1.0"]
    );
    assert_eq!(
        names(select_releases(&doc, None, Some("0.0.1..0.1.0")).unwrap()),
        vec!["0.1.0", "0.0.1"]
    );
    assert_eq!(
        names(select_releases(&doc, None, Some("0.2.0..0.1.0")).unwrap()),
        vec!["0.2.0", "0.1.0"]
    );
    for (version, range) in [(Some("9.9.9"), None), (None, Some("1.0.0..2.0.0"))] {
        assert_eq!(
            invalid_arguments(select_releases(&doc, version, range).err().unwrap()),
            "no matching releases found"
        );
    }
    assert_eq!(
        invalid_arguments(
            select_releases(&ChangelogDocument::scaffold(), None, None)
                .err()
                .unwrap()
        ),
        "no matching releases found"
    );
}

#[test]
fn selected_releases_are_shown_newest_first() {
    let doc = ChangelogDocument::parse("# Mine\n## [1.0.0]\n### A\n- x\n## [2.0.0]\n### A\n- y\n").unwrap();
    assert_eq!(
        show_releases(&doc, None, None, false).unwrap(),
        "# Mine\n\n## [2.0.0]\n\n### A\n- y\n\n## [1.0.0]\n\n### A\n- x\n"
    );
    assert_eq!(
        show_releases(&doc, Some("1.0.0"), None, false).unwrap(),
        "# Mine\n\n## [1.0.0]\n\n### A\n- x\n"
    );
}

#[test]
fn selected_releases_are_shown_converged() {
    let text = show_releases(&sample(), None, Some("0.0.1..0.2.0"), true).unwrap();
    assert_eq!(
        text,
        "# Changelog\n\n## [converged]\n\n### Added\n- add api\n- initial feature\n\n### Fixed\n- resolve bug\n"
    );
    assert_eq!(
        version_error(show_releases(&sample(), Some("x"), None, true).unwrap_err()),
        "x"
    );
}

#[test]
fn a_release_is_removed_only_with_yes() {
    let mut doc = sample();
    let before = doc.clone();
    assert_eq!(
        invalid_arguments(confirm_removal(false).unwrap_err()),
        "remove requires --yes to apply file changes"
    );
    assert!(confirm_removal(true).is_ok());
    assert_eq!(
        version_error(remove_release(&mut doc, "zero").unwrap_err()),
        "zero"
    );
    assert_eq!(
        invalid_arguments(remove_release(&mut doc, "2.0.0").unwrap_err()),
        "release 2.0.0 was not found"
    );
    assert_eq!(doc, before);
    let text = remove_release(&mut doc, "0.0.1").expect("remove");
    assert!(!text.contains("0.0.1"));
    assert!(text.contains("0.2.0"));
    assert_eq!(
        text,
        "# Log\n\n## [0.2.0] - 2026-02-01\n\n### Added\n- add api\n\n## [0.1.0] - 2026-01-15\n\n### Fixed\n- resolve bug\n"
    );
}

#[test]
fn the_extension_of_a_mapping_file_names_its_format() {
    assert_eq!(mapping_format("json").unwrap(), MappingFormat::Json);
    assert_eq!(mapping_format("toml").unwrap(), MappingFormat::Toml);
    assert_eq!(
        invalid_arguments(mapping_format("yaml").unwrap_err()),
        "unsupported mapping extension 'yaml'; use .json or .toml"
    );
    assert_eq!(
        invalid_arguments(mapping_format("").unwrap_err()),
        "unsupported mapping extension ''; use .json or .toml"
    );
}

#[test]
fn a_manifest_with_a_workspace_has_members() {
    assert_eq!(
        workspace_members("[package]\nname = \"x\"\n\n[workspace]\nmembers = []\n"),
        vec!["crate-a".to_string(), "crate-b".to_string()]
    );
    assert!(workspace_members("[package]\nname = \"x\"\n").is_empty());
    assert!(workspace_members("").is_empty());
}
