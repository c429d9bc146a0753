use changelog_gen::commit::Commit;
use changelog_gen::document::ChangelogDocument;
use changelog_gen::error::ChangelogError;
use changelog_gen::history::{oldest_first, plan_walk, release_from, release_range, sorted_tags};
use changelog_gen::history::{CommitRange, RepositoryApi, WalkPlan, WalkStart};
use changelog_gen::version::Version;

fn commit(message: &str, hash: &str) -> Commit {
    Commit {
        message: message.to_string(),
        hash: hash.to_string(),
    }
}

struct Fixed {
    broken: bool,
    tags: Result<Vec<String>, String>,
    since_tag: Vec<Commit>,
    all: Vec<Commit>,
}

impl RepositoryApi for Fixed {
    fn list_commits(&self, range: &CommitRange) -> Result<Vec<Commit>, String> {
        if self.broken {
            return Err("bad revision".to_string());
        }
        if range.since.is_some() {
            Ok(self.since_tag.clone())
        } else {
            Ok(self.all.clone())
        }
    }

    fn list_tags(&self) -> Result<Vec<String>, String> {
        self.tags.clone()
    }
}

fn repository() -> Fixed {
    Fixed {
        broken: false,
        tags: Ok(vec!["v0.1.0".to_string(), "nightly".to_string()]),
        since_tag: vec![commit("fix: resolve bug", "b"), commit("fix: resolve bug", "c")],
        all: vec![
            commit("feat: initial feature", "a"),
            commit("fix: resolve bug", "b"),
            commit("fix: resolve bug", "c"),
        ],
    }
}

#[test]
fn a_range_is_walked_from_until_and_hides_since() {
    let range = CommitRange {
        since: Some("v1.0.0".to_string()),
        until: Some("HEAD~1".to_string()),
        specific: None,
    };
    assert_eq!(
        plan_walk(&range),
        WalkPlan {
            start: WalkStart::Reference("HEAD~1".to_string()),
            hide: Some("v1.0.0".to_string()),
            hide_parents: false,
        }
    );
    assert_eq!(
        plan_walk(&CommitRange::default()),
        WalkPlan {
            start: WalkStart::Head,
            hide: None,
            hide_parents: false,
        }
    );
}

#[test]
fn a_specific_commit_is_walked_alone() {
    let range = CommitRange {
        since: Some("v1.0.0".to_string()),
        until: Some("HEAD".to_string()),
        specific: Some("abc123".to_string()),
    };
    assert_eq!(
        plan_walk(&range),
        WalkPlan {
            start: WalkStart::Reference("abc123".to_string()),
            hide: None,
            hide_parents: true,
        }
    );
    let copy = range.clone();
    assert_eq!(copy.specific, range.specific);
    assert_eq!(copy.since, range.since);
    assert_eq!(copy.until, range.until);
}

#[test]
fn commits_are_turned_oldest_first() {
    let walked = vec![commit("c", "3"), commit("b", "2"), commit("a", "1")];
    assert_eq!(
        oldest_first(walked),
        vec![commit("a", "1"), commit("b", "2"), commit("c", "3")]
    );
    assert!(oldest_first(Vec::new()).is_empty());
}

#[test]
fn tags_are_sorted_as_texts() {
    let tags = vec!["v1.2.0", "v1.10.0", "nightly", "v1.3.0", "V2", "v1.10.0"];
    let sorted = sorted_tags(tags.iter().map(|t| t.to_string()).collect());
    assert_eq!(
        sorted,
        vec!["V2", "nightly", "v1.10.0", "v1.10.0", "v1.2.0", "v1.3.0"]
    );
    assert!(sorted_tags(Vec::new()).is_empty());
}

#[test]
fn a_release_takes_the_commits_since_the_latest_tag() {
    let tags = vec!["v0.1.0".to_string(), "nightly".to_string(), "v0.3.0".to_string()];
    let range = release_range(&tags);
    assert_eq!(range.since, Some("v0.3.0".to_string()));
    assert_eq!(range.until, None);
    assert_eq!(range.specific, None);
    let range = release_range(&["nightly".to_string()]);
    assert_eq!(range.since, None);
}

#[test]
fn a_release_is_made_of_the_commits_since_the_latest_tag() {
    let repo = repository();
    let mut doc = ChangelogDocument::scaffold();
    let text = release_from(&repo, &mut doc, Version::new(0, 0, 1), "plain", false)
        .expect("release");
    let date = doc.releases[0].date.clone().expect("date");
    assert_eq!(date.chars().count(), 10);
    assert_eq!(
        text,
        format!("# Changelog\n\n## 0.0.1 - {}\n\n### Fixed\n- resolve bug\n", date)
    );
    assert_eq!(text.matches("- resolve bug").count(), 1);

    let untagged = Fixed {
        tags: Ok(vec!["nightly".to_string()]),
        ..repository()
    };
    let text = release_from(&untagged, &mut doc, Version::new(0, 2, 0), "default", false)
        .expect("release");
    assert_eq!(
        text,
        format!(
            "# Changelog\n\n## [0.2.0] - {}\n\n### Added\n- initial feature\n\n### Fixed\n- resolve bug\n\n## 0.0.1 - {}\n\n### Fixed\n- resolve bug\n",
            date, date
        )
    );
}

#[test]
fn an_error_of_the_repository_is_a_git_error() {
    let mut doc = ChangelogDocument::scaffold();
    let before = doc.clone();
    let failing = Fixed {
        tags: Err("not a repository".to_string()),
        ..repository()
    };
    match release_from(&failing, &mut doc, Version::new(1, 0, 0), "plain", false).unwrap_err() {
        ChangelogError::GitError(m) => assert_eq!(m, "not a repository"),
        other => panic!("{:?}", other),
    }
    let broken = Fixed {
        broken: true,
        ..repository()
    };
    match release_from(&broken, &mut doc, Version::new(1, 0, 0), "plain", false).unwrap_err() {
        ChangelogError::GitError(m) => assert_eq!(m, "bad revision"),
        other => panic!("{:?}", other),
    }
    assert_eq!(doc, before);
}
