use changelog_gen::document::{ChangelogDocument, HeaderFormat};
use changelog_gen::grammar::Parser;
use changelog_gen::version::Version;

fn chars(s: &str) -> Vec<char> {
    s.chars().collect()
}

fn notes(doc: &ChangelogDocument, release: usize, section: &str) -> Vec<String> {
    doc.releases[release]
        .sections
        .get(section)
        .expect("section")
        .clone()
}

#[test]
fn parse_reads_title_releases_sections_and_notes() {
    let input = "# My Log\n\n## [2.0.0] - 2026-03-01\n\n### Fixed\n- b1\n- b2\n\n### Added\n- a1\n\n## [1.0.0]\n";
    let doc = ChangelogDocument::parse(input).expect("parse");
    assert_eq!(doc.title, "My Log");
    assert_eq!(doc.releases.len(), 2);
    assert_eq!(doc.releases[0].version, Version::new(2, 0, 0));
    assert_eq!(doc.releases[0].date, Some("2026-03-01".to_string()));
    assert_eq!(doc.releases[0].header, HeaderFormat::Default);
    assert_eq!(doc.releases[0].sections.len(), 2);
    assert_eq!(notes(&doc, 0, "Fixed"), vec!["b1".to_string(), "b2".to_string()]);
    assert_eq!(notes(&doc, 0, "Added"), vec!["a1".to_string()]);
    assert_eq!(doc.releases[0].sections.section(0).name, "Added");
    assert_eq!(doc.releases[0].sections.section(1).name, "Fixed");
    assert_eq!(doc.releases[1].version, Version::new(1, 0, 0));
    assert_eq!(doc.releases[1].date, None);
    assert_eq!(doc.releases[1].header, HeaderFormat::VersionOnly);
    assert!(doc.releases[1].sections.is_empty());
}

#[test]
fn heading_in_brackets_with_date_is_default() {
    let doc = ChangelogDocument::parse("# C\n## [1.2.3] - 2026-01-01\n").expect("parse");
    assert_eq!(doc.releases[0].header, HeaderFormat::Default);
    assert_eq!(doc.releases[0].date, Some("2026-01-01".to_string()));
}

#[test]
fn heading_in_brackets_with_dash_but_no_date_is_version_only() {
    let doc = ChangelogDocument::parse("# C\n## [1.2.3] -\n").expect("parse");
    assert_eq!(doc.releases[0].header, HeaderFormat::VersionOnly);
    assert_eq!(doc.releases[0].date, None);
}

#[test]
fn heading_in_brackets_takes_date_without_spaces() {
    let doc = ChangelogDocument::parse("# C\n## [1.2.3]-2026\n").expect("parse");
    assert_eq!(doc.releases[0].header, HeaderFormat::Default);
    assert_eq!(doc.releases[0].date, Some("2026".to_string()));
}

#[test]
fn bare_heading_with_date_is_plain() {
    let doc = ChangelogDocument::parse("# C\n## 1.2.3 - 2026-01-01\n").expect("parse");
    assert_eq!(doc.releases[0].header, HeaderFormat::Plain);
    assert_eq!(doc.releases[0].version, Version::new(1, 2, 3));
    assert_eq!(doc.releases[0].date, Some("2026-01-01".to_string()));
}

#[test]
fn bare_heading_without_date_is_the_custom_heading() {
    let doc = ChangelogDocument::parse("# C\n## 1.2.3\n").expect("parse");
    assert_eq!(
        doc.releases[0].header,
        HeaderFormat::Custom("## {version}".to_string())
    );
    assert_eq!(doc.releases[0].date, None);
}

#[test]
fn versions_with_identifiers_are_read() {
    let doc = ChangelogDocument::parse("# C\n## [1.0.0-rc.1+build.5] - today\n").expect("parse");
    let version = &doc.releases[0].version;
    assert_eq!(version.major(), 1);
    assert_eq!(version.pre(), "rc.1");
    assert_eq!(version.build(), "build.5");
    assert_eq!(doc.releases[0].date, Some("today".to_string()));
}

#[test]
fn lines_are_trimmed_and_carriage_returns_ignored() {
    let input = "  # Changelog  \r\n\r\n  ## [1.0.0] - 2026-01-01\r\n\r\n\t### Added \r\n -  a note  \r\n";
    let doc = ChangelogDocument::parse(input).expect("parse");
    assert_eq!(doc.title, "Changelog");
    assert_eq!(notes(&doc, 0, "Added"), vec!["a note".to_string()]);
}

#[test]
fn title_is_trimmed_behind_its_marker() {
    let doc = ChangelogDocument::parse("#    Spaced out\n").expect("parse");
    assert_eq!(doc.title, "Spaced out");
}

#[test]
fn a_marker_is_stripped_once() {
    let doc = ChangelogDocument::parse("# # T\n## [1.0.0]\n### ### S\n- - n\n").expect("parse");
    assert_eq!(doc.title, "# T");
    assert_eq!(notes(&doc, 0, "### S"), vec!["- n".to_string()]);
}

#[test]
fn a_section_heading_registers_an_empty_section() {
    let doc = ChangelogDocument::parse("# C\n## [1.0.0]\n### Added\n").expect("parse");
    assert!(doc.releases[0].sections.contains_key("Added"));
    assert!(notes(&doc, 0, "Added").is_empty());
}

#[test]
fn a_repeated_section_heading_goes_on_with_the_section() {
    let input = "# C\n## [1.0.0]\n### A\n- x\n### B\n- y\n### A\n- z\n";
    let doc = ChangelogDocument::parse(input).expect("parse");
    assert_eq!(notes(&doc, 0, "A"), vec!["x".to_string(), "z".to_string()]);
    assert_eq!(notes(&doc, 0, "B"), vec!["y".to_string()]);
}

#[test]
fn empty_text_is_an_empty_file() {
    let err = ChangelogDocument::parse("").expect_err("empty");
    assert_eq!(err.line, 1);
    assert_eq!(err.expected, "a '# Changelog' title");
    assert_eq!(err.found, "empty file");
    assert_eq!(err.fix, "create a file starting with '# Changelog'");
    let err = ChangelogDocument::parse("\n  \n\n").expect_err("blank");
    assert_eq!(err.line, 1);
    assert_eq!(err.found, "empty file");
}

#[test]
fn first_line_must_be_a_title() {
    let err = ChangelogDocument::parse("\n## [1.0.0]\n").expect_err("no title");
    assert_eq!(err.line, 2);
    assert_eq!(err.expected, "a level-1 heading like '# Changelog'");
    assert_eq!(err.found, "## [1.0.0]");
    assert_eq!(err.fix, "replace the first non-empty line with '# Changelog'");
    let err = ChangelogDocument::parse("#\n").expect_err("bare marker");
    assert_eq!(err.line, 1);
    assert_eq!(err.found, "#");
}

#[test]
fn text_behind_the_title_must_be_a_release_heading() {
    let err = ChangelogDocument::parse("# C\n\nsome text\n").expect_err("text");
    assert_eq!(err.line, 3);
    assert_eq!(err.expected, "a release heading '## [x.y.z] - YYYY-MM-DD'");
    assert_eq!(err.found, "some text");
    assert_eq!(err.fix, "add a release heading before sections and notes");
    let err = ChangelogDocument::parse("# C\n### Added\n").expect_err("section first");
    assert_eq!(err.line, 2);
    assert_eq!(err.expected, "a release heading '## [x.y.z] - YYYY-MM-DD'");
    let err = ChangelogDocument::parse("# C\n# D\n").expect_err("second title");
    assert_eq!(err.line, 2);
    assert_eq!(err.found, "# D");
}

#[test]
fn a_bracket_must_be_closed() {
    let err = ChangelogDocument::parse("# C\n## [1.0.0\n").expect_err("bracket");
    assert_eq!(err.line, 2);
    assert_eq!(err.expected, "closing ']' in release heading");
    assert_eq!(err.found, "[1.0.0");
    assert_eq!(err.fix, "use heading format like '## [1.2.3] - 2026-01-01'");
}

#[test]
fn a_version_must_be_semantic() {
    let err = ChangelogDocument::parse("# C\n\n\n## [1.0]\n").expect_err("version");
    assert_eq!(err.line, 4);
    assert_eq!(err.expected, "a semantic version (x.y.z)");
    assert_eq!(err.found, "1.0");
    assert_eq!(err.fix, "replace with a valid version like 1.4.2");
    let err = ChangelogDocument::parse("# C\n## v1.0.0 - 2026-01-01\n").expect_err("prefix");
    assert_eq!(err.found, "v1.0.0");
    let err = ChangelogDocument::parse("# C\n## [ 1.0.0 ]\n").expect_err("spaces");
    assert_eq!(err.found, " 1.0.0 ");
    let err = ChangelogDocument::parse("# C\n## [01.0.0]\n").expect_err("leading zero");
    assert_eq!(err.found, "01.0.0");
}

#[test]
fn a_line_in_a_release_must_be_a_note_or_a_section() {
    let err = ChangelogDocument::parse("# C\n## 1.0.0\n### A\ntext\n").expect_err("text");
    assert_eq!(err.line, 4);
    assert_eq!(
        err.expected,
        "a bullet note '- ...' or a section heading '### ...'"
    );
    assert_eq!(err.found, "text");
    assert_eq!(
        err.fix,
        "prefix notes with '- ' and group them under '### <Section>'"
    );
    let err = ChangelogDocument::parse("# C\n## 1.0.0\n###\n").expect_err("bare marker");
    assert_eq!(err.line, 3);
    assert_eq!(err.found, "###");
    let err = ChangelogDocument::parse("# C\n## 1.0.0\n### A\n-\n").expect_err("bare dash");
    assert_eq!(err.found, "-");
}

#[test]
fn a_note_needs_a_section() {
    let err = ChangelogDocument::parse("# Changelog\n\n## [1.0.0]\n\n- orphan note\n")
        .expect_err("orphan");
    assert_eq!(err.line, 5);
    assert_eq!(err.expected, "a section heading before notes");
    assert_eq!(err.found, "- orphan note");
    assert_eq!(err.fix, "insert a heading like '### Added' above this note");
    assert_eq!(
        err.message(),
        "Invalid changelog at line 5: expected a section heading before notes, found - orphan note. Fix: insert a heading like '### Added' above this note"
    );
}

#[test]
fn the_section_of_one_release_does_not_reach_the_next() {
    let err = ChangelogDocument::parse("# C\n## [2.0.0]\n### A\n- x\n## [1.0.0]\n- y\n")
        .expect_err("orphan in second release");
    assert_eq!(err.line, 6);
    assert_eq!(err.expected, "a section heading before notes");
}

#[test]
fn the_first_defect_ends_the_parse() {
    let err = ChangelogDocument::parse("# C\n## [bad]\n## [1.0\n").expect_err("two defects");
    assert_eq!(err.line, 2);
    assert_eq!(err.found, "bad");
}

#[test]
fn the_parser_is_fed_line_by_line() {
    let parser = Parser::new();
    let parser = parser.feed(&chars("# Log"), 1).expect("title");
    let parser = parser.feed(&chars(""), 2).expect("blank");
    let parser = parser.feed(&chars("## [0.1.0]"), 3).expect("heading");
    let parser = parser.feed(&chars("### Added"), 4).expect("section");
    let parser = parser.feed(&chars("- first"), 5).expect("note");
    let doc = parser.finish().expect("finish");
    assert_eq!(doc.title, "Log");
    assert_eq!(notes(&doc, 0, "Added"), vec!["first".to_string()]);

    let err = Parser::new()
        .feed(&chars("oops"), 7)
        .err()
        .expect("title expected");
    assert_eq!(err.line, 7);
    let err = Parser::new().finish().expect_err("nothing read");
    assert_eq!(err.found, "empty file");
}

#[test]
fn every_heading_shape_makes_the_round_trip() {
    let input = "# Notes\n\n## [3.0.0] - 2026-03-03\n\n### Added\n- a\n\n## [2.0.0]\n\n### Changed\n- b\n- c\n\n### Fixed\n\n## 1.1.0 - 2025-01-01\n\n## 1.0.0-beta.1+exp.sha\n\n### Added\n- d\n";
    let doc = ChangelogDocument::parse(input).expect("parse");
    let text = doc.to_markdown();
    assert_eq!(text, input);
    let again = ChangelogDocument::parse(&text).expect("reparse");
    assert_eq!(doc, again);
}

#[test]
fn untidy_text_makes_the_round_trip_once_parsed() {
    let input = "\n\n#   Log \n## [1.0.0]   -   soon  \n###  Zebra\n-   z  \n### Apple\n- a\n\n\n## 0.9.0 - - odd\n###  ### nested\n-  - dash\n";
    let doc = ChangelogDocument::parse(input).expect("parse");
    let text = doc.to_markdown();
    assert_eq!(
        text,
        "# Log\n\n## [1.0.0] - soon\n\n### Apple\n- a\n\n### Zebra\n- z\n\n## 0.9.0 - - odd\n\n### ### nested\n- - dash\n"
    );
    let again = ChangelogDocument::parse(&text).expect("reparse");
    assert_eq!(doc, again);
    assert_eq!(again.to_markdown(), text);
}
