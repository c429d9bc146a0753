use changelog_gen::commit::Commit;
use changelog_gen::notes::{canonical_note_key, contains_ignore_marker, dedupe_grouped_notes};
use changelog_gen::notes::{dedupe_list, map_type_to_section, notes_from_commits};
use changelog_gen::notes::{parse_conventional_commit, should_ignore_commit, summary_line, TypeMap};
use changelog_gen::sections::SectionMap;

fn commit(message: &str) -> Commit {
    Commit {
        message: message.to_string(),
        hash: "0".to_string(),
    }
}

fn strings(list: &[&str]) -> Vec<String> {
    list.iter().map(|s| s.to_string()).collect()
}

fn pair(kind: &str, description: &str) -> Option<(String, String)> {
    Some((kind.to_string(), description.to_string()))
}

#[test]
fn markers_are_found_whatever_their_case() {
    assert!(should_ignore_commit("feat: x (SKIP CHANGELOG)"));
    assert!(should_ignore_commit("feat: x (Ignore Changelog)"));
    assert!(should_ignore_commit("Fix: y !ChangeLog"));
    assert!(should_ignore_commit("chore: q !LOG"));
    assert!(should_ignore_commit("subject\n\nbody with (skip changelog)"));
    assert!(!should_ignore_commit("feat: skip changelog"));
    assert!(!should_ignore_commit("feat: ! log"));
    assert!(!should_ignore_commit(""));
}

#[test]
fn a_lowered_text_is_searched_for_markers_as_it_is() {
    assert!(contains_ignore_marker("a (skip changelog) b"));
    assert!(contains_ignore_marker("(ignore changelog)"));
    assert!(contains_ignore_marker("x!changelog"));
    assert!(contains_ignore_marker("catalog!log"));
    assert!(!contains_ignore_marker("(SKIP CHANGELOG)"));
    assert!(!contains_ignore_marker("(skip  changelog)"));
    assert!(!contains_ignore_marker("!lo"));
}

#[test]
fn a_conventional_commit_gives_kind_and_description() {
    assert_eq!(
        parse_conventional_commit("feat(ui)!: redesign: with colon"),
        pair("feat", "redesign: with colon")
    );
    assert_eq!(parse_conventional_commit("fix: resolve bug"), pair("fix", "resolve bug"));
    assert_eq!(parse_conventional_commit("  docs :  spaced  "), pair("docs", "spaced"));
    assert_eq!(parse_conventional_commit("feat!: breaking"), pair("feat", "breaking"));
    assert_eq!(parse_conventional_commit("feat!!: twice"), pair("feat!", "twice"));
    assert_eq!(parse_conventional_commit("feat (api): x"), pair("feat", "x"));
    assert_eq!(parse_conventional_commit("Merge: a into b"), pair("Merge", "a into b"));
}

#[test]
fn what_is_no_conventional_commit_gives_nothing() {
    assert_eq!(parse_conventional_commit("chore: "), None);
    assert_eq!(parse_conventional_commit("chore:"), None);
    assert_eq!(parse_conventional_commit("no colon here"), None);
    assert_eq!(parse_conventional_commit(": description"), None);
    assert_eq!(parse_conventional_commit("!: description"), None);
    assert_eq!(parse_conventional_commit("(scope): description"), None);
    assert_eq!(parse_conventional_commit(""), None);
}

#[test]
fn only_the_first_line_is_classified() {
    assert_eq!(
        parse_conventional_commit("feat: subject\n\nbody: more"),
        pair("feat", "subject")
    );
    assert_eq!(parse_conventional_commit("subject\nfix: in the body"), None);
    assert_eq!(summary_line("  first  \r\nsecond"), vec!['f', 'i', 'r', 's', 't']);
    assert!(summary_line("\nsecond").is_empty());
}

#[test]
fn every_kind_has_its_default_section() {
    let none = TypeMap::new();
    for (kind, section) in [
        ("feat", "Added"),
        ("fix", "Fixed"),
        ("perf", "Changed"),
        ("refactor", "Changed"),
        ("docs", "Documentation"),
        ("test", "Maintenance"),
        ("chore", "Maintenance"),
        ("build", "Maintenance"),
        ("ci", "Maintenance"),
        ("style", "Other"),
        ("Feat", "Other"),
        ("", "Other"),
    ] {
        assert_eq!(map_type_to_section(kind, &none), section, "{}", kind);
    }
}

#[test]
fn the_table_goes_before_the_defaults() {
    let mut mapping = TypeMap::new();
    mapping.insert("fix".to_string(), "Bug Fixes".to_string());
    mapping.insert("style".to_string(), "Looks".to_string());
    mapping.insert("fix".to_string(), "Repairs".to_string());
    assert_eq!(map_type_to_section("fix", &mapping), "Repairs");
    assert_eq!(map_type_to_section("style", &mapping), "Looks");
    assert_eq!(map_type_to_section("feat", &mapping), "Added");
    assert_eq!(mapping.get("docs"), None);
    assert_eq!(mapping.get("fix"), Some(&"Repairs".to_string()));
}

#[test]
fn the_key_of_a_note_is_its_words_in_lower_case() {
    assert_eq!(canonical_note_key("  Fix   RACE\tin\n parser "), "fix race in parser");
    assert_eq!(canonical_note_key("already tidy"), "already tidy");
    assert_eq!(canonical_note_key(" \t "), "");
    assert_eq!(canonical_note_key(""), "");
    assert_eq!(canonical_note_key("a\u{a0}b\u{3000}c"), "a b c");
    assert_eq!(canonical_note_key("ÄÖ Ü"), "äö ü");
}

#[test]
fn of_notes_with_one_key_the_first_stays() {
    let notes = strings(&[
        "fix race in parser",
        "fix  race  in parser",
        "Fix race in parser",
        "fix another issue",
    ]);
    assert_eq!(
        dedupe_list(&notes),
        strings(&["fix race in parser", "fix another issue"])
    );
    let notes = strings(&["B", "a", "b", "A", " a "]);
    assert_eq!(dedupe_list(&notes), strings(&["B", "a"]));
    assert!(dedupe_list(&Vec::new()).is_empty());
}

#[test]
fn deduplicating_twice_is_deduplicating_once() {
    let mut grouped = SectionMap::new();
    grouped.insert("Added".to_string(), strings(&["x", "X", "y", " x ", "Y", "z"]));
    grouped.insert("Fixed".to_string(), strings(&["one", "ONE"]));
    grouped.insert("Empty".to_string(), Vec::new());
    let once = dedupe_grouped_notes(&grouped);
    let twice = dedupe_grouped_notes(&once);
    assert_eq!(once, twice);
    assert_eq!(once.len(), 2);
    assert_eq!(once.get("Added"), Some(&strings(&["x", "y", "z"])));
    assert_eq!(once.get("Fixed"), Some(&strings(&["one"])));
    assert!(!once.contains_key("Empty"));
}

#[test]
fn commits_become_notes_by_section() {
    let commits = vec![
        commit("feat: initial feature"),
        commit("fix: resolve bug"),
        commit("fix: Resolve  bug"),
        commit("chore: tooling cleanup !changelog"),
        commit("feat: x (skip changelog)"),
        commit("random message"),
        commit("chore: "),
        commit("   "),
        commit(""),
        commit("perf(core): faster\n\nlong body"),
        commit("feat: visible change"),
    ];
    let notes = notes_from_commits(&commits, &TypeMap::new());
    assert_eq!(notes.len(), 4);
    assert_eq!(
        notes.get("Added"),
        Some(&strings(&["initial feature", "visible change"]))
    );
    assert_eq!(notes.get("Fixed"), Some(&strings(&["resolve bug"])));
    assert_eq!(notes.get("Changed"), Some(&strings(&["faster"])));
    assert_eq!(notes.get("Other"), Some(&strings(&["random message", "chore:"])));
    assert!(!notes.contains_key("Maintenance"));
}

#[test]
fn an_ignored_commit_gives_no_note_and_a_visible_one_gives_one() {
    let none = notes_from_commits(&[commit("feat: x (skip changelog)")], &TypeMap::new());
    assert!(none.is_empty());
    let one = notes_from_commits(&[commit("feat: visible change")], &TypeMap::new());
    assert_eq!(one.len(), 1);
    assert_eq!(one.get("Added"), Some(&strings(&["visible change"])));
}

#[test]
fn the_table_decides_where_notes_go() {
    let mut mapping = TypeMap::new();
    mapping.insert("fix".to_string(), "Bug Fixes".to_string());
    mapping.insert("feat".to_string(), "Features".to_string());
    let commits = vec![commit("fix: resolve bug"), commit("feat: add api"), commit("docs: readme")];
    let notes = notes_from_commits(&commits, &mapping);
    assert_eq!(notes.get("Bug Fixes"), Some(&strings(&["resolve bug"])));
    assert_eq!(notes.get("Features"), Some(&strings(&["add api"])));
    assert_eq!(notes.get("Documentation"), Some(&strings(&["readme"])));
    assert!(!notes.contains_key("Fixed"));
}

#[test]
fn the_earliest_of_notes_that_say_the_same_stays() {
    let commits = vec![
        commit("fix: Handle   Empty input"),
        commit("feat: new"),
        commit("fix: handle empty input"),
    ];
    let notes = notes_from_commits(&commits, &TypeMap::new());
    assert_eq!(notes.get("Fixed"), Some(&strings(&["Handle   Empty input"])));
}

#[test]
fn notes_that_say_the_same_stay_in_different_sections() {
    let commits = vec![commit("fix: same words"), commit("feat: same words")];
    let notes = notes_from_commits(&commits, &TypeMap::new());
    assert_eq!(notes.get("Fixed"), Some(&strings(&["same words"])));
    assert_eq!(notes.get("Added"), Some(&strings(&["same words"])));
}
