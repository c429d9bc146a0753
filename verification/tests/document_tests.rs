use changelog_gen::document::{is_semver_desc_sorted, parse_header_format, ChangelogDocument};
use changelog_gen::document::{HeaderFormat, Release};
use changelog_gen::sections::SectionMap;
use changelog_gen::version::Version;

fn v(text: &str) -> Version {
    Version::parse(text).expect("version")
}

fn dated(text: &str, date: &str) -> Release {
    Release::dated(v(text), Some(date.to_string()))
}

fn versions(doc: &ChangelogDocument) -> Vec<String> {
    doc.releases.iter().map(|r| r.version.to_string()).collect()
}

#[test]
fn a_scaffold_has_a_title_and_no_releases() {
    let doc = ChangelogDocument::scaffold();
    assert_eq!(doc.title, "Changelog");
    assert!(doc.releases.is_empty());
}

#[test]
fn a_new_release_is_dated_today() {
    let release = Release::new(Version::new(1, 0, 0));
    let date = release.date.clone().expect("date");
    let chars: Vec<char> = date.chars().collect();
    assert_eq!(chars.len(), 10);
    assert_eq!(chars[4], '-');
    assert_eq!(chars[7], '-');
    assert!(chars.iter().filter(|c| c.is_ascii_digit()).count() == 8);
    assert_eq!(release.header, HeaderFormat::Default);
    assert!(release.sections.is_empty());
    assert_eq!(release.version, Version::new(1, 0, 0));
    let undated = Release::dated(Version::new(1, 0, 0), None);
    assert_eq!(undated.date, None);
}

#[test]
fn the_names_of_heading_styles_are_read() {
    assert_eq!(parse_header_format("default"), HeaderFormat::Default);
    assert_eq!(parse_header_format("brackets"), HeaderFormat::Default);
    assert_eq!(parse_header_format("plain"), HeaderFormat::Plain);
    assert_eq!(parse_header_format("version-only"), HeaderFormat::VersionOnly);
    assert_eq!(
        parse_header_format("## {version} / {date}"),
        HeaderFormat::Custom("## {version} / {date}".to_string())
    );
    assert_eq!(parse_header_format("Plain"), HeaderFormat::Custom("Plain".to_string()));
    assert_eq!(parse_header_format(""), HeaderFormat::Custom(String::new()));
}

#[test]
fn upserting_keeps_the_releases_from_newest_to_oldest() {
    let mut doc = ChangelogDocument::scaffold();
    for text in ["1.0.0", "2.0.0", "1.5.0", "1.10.0", "1.5.0-rc.1", "0.0.1"] {
        doc.upsert_release(dated(text, "d"), false).expect("upsert");
    }
    assert_eq!(
        versions(&doc),
        vec!["2.0.0", "1.10.0", "1.5.0", "1.5.0-rc.1", "1.0.0", "0.0.1"]
    );
    assert!(is_semver_desc_sorted(&doc.releases));
    assert!(doc.validate(false).is_ok());
}

#[test]
fn a_release_that_is_there_is_replaced_only_on_demand() {
    let mut doc = ChangelogDocument::scaffold();
    doc.upsert_release(dated("1.0.0", "first"), false).expect("upsert");
    doc.upsert_release(dated("2.0.0", "second"), false).expect("upsert");
    let before = doc.clone();
    let refusal = doc
        .upsert_release(dated("1.0.0", "third"), false)
        .expect_err("exists");
    assert_eq!(
        refusal,
        "release 1.0.0 already exists (use --override to replace it)"
    );
    assert_eq!(doc, before);
    doc.upsert_release(dated("1.0.0", "third"), true).expect("override");
    assert_eq!(versions(&doc), vec!["2.0.0", "1.0.0"]);
    assert_eq!(doc.releases[1].date, Some("third".to_string()));
    assert_eq!(doc.releases[0].date, Some("second".to_string()));
}

#[test]
fn sorting_keeps_the_order_of_releases_of_one_version() {
    let mut doc = ChangelogDocument {
        title: "C".to_string(),
        releases: vec![
            dated("1.0.0", "a"),
            dated("3.0.0", "b"),
            dated("1.0.0", "c"),
            dated("2.0.0", "d"),
            dated("3.0.0", "e"),
        ],
    };
    assert!(!is_semver_desc_sorted(&doc.releases));
    doc.sort_semver_desc();
    let dates: Vec<String> = doc.releases.iter().map(|r| r.date.clone().unwrap()).collect();
    assert_eq!(dates, vec!["b", "e", "d", "a", "c"]);
    assert!(is_semver_desc_sorted(&doc.releases));
    assert_eq!(doc.title, "C");
}

#[test]
fn few_releases_are_always_in_order() {
    assert!(is_semver_desc_sorted(&[]));
    assert!(is_semver_desc_sorted(&[dated("1.0.0", "a")]));
    assert!(is_semver_desc_sorted(&[dated("1.0.0", "a"), dated("1.0.0", "b")]));
    assert!(!is_semver_desc_sorted(&[dated("1.0.0", "a"), dated("1.0.1", "b")]));
}

#[test]
fn removing_a_version_takes_all_its_releases() {
    let mut doc = ChangelogDocument {
        title: "C".to_string(),
        releases: vec![
            dated("2.0.0", "a"),
            dated("1.0.0", "b"),
            dated("2.0.0", "c"),
            dated("0.1.0", "d"),
        ],
    };
    assert!(!doc.remove_version(&v("9.9.9")));
    assert_eq!(doc.releases.len(), 4);
    assert!(doc.remove_version(&v("2.0.0")));
    assert_eq!(versions(&doc), vec!["1.0.0", "0.1.0"]);
    assert!(!doc.remove_version(&v("2.0.0")));
    assert!(!doc.remove_version(&v("1.0.0+build")));
    assert!(doc.remove_version(&v("0.1.0")));
    assert!(doc.remove_version(&v("1.0.0")));
    assert!(doc.releases.is_empty());
}

#[test]
fn notes_are_added_to_their_section_in_order() {
    let mut release = Release::dated(Version::new(1, 0, 0), None);
    release.add_note("B".to_string(), "1".to_string());
    release.add_note("A".to_string(), "2".to_string());
    release.add_note("B".to_string(), "3".to_string());
    assert_eq!(release.sections.len(), 2);
    assert_eq!(
        release.sections.get("B"),
        Some(&vec!["1".to_string(), "3".to_string()])
    );
    assert_eq!(release.sections.get("A"), Some(&vec!["2".to_string()]));
    assert_eq!(release.sections.get("C"), None);
}

#[test]
fn sections_stand_in_the_order_of_their_names() {
    let mut map = SectionMap::new();
    assert!(map.is_empty());
    for name in ["delta", "alpha", "charlie", "Bravo", "alpha", "álpha", "alp"] {
        map.add_note(name.to_string(), "n".to_string());
    }
    let names: Vec<String> = (0..map.len()).map(|i| map.section(i).name.clone()).collect();
    assert_eq!(names, vec!["Bravo", "alp", "alpha", "charlie", "delta", "álpha"]);
    assert_eq!(map.get("alpha").map(|n| n.len()), Some(2));
    map.insert("alpha".to_string(), vec!["only".to_string()]);
    assert_eq!(map.get("alpha"), Some(&vec!["only".to_string()]));
    map.ensure("alpha".to_string());
    assert_eq!(map.get("alpha"), Some(&vec!["only".to_string()]));
    map.ensure("echo".to_string());
    assert_eq!(map.get("echo"), Some(&Vec::new()));
    assert!(map.contains_key("echo"));
    assert!(!map.contains_key("Echo"));
    assert_eq!(map.len(), 7);
    let copy = map.clone();
    assert_eq!(copy, map);
}
