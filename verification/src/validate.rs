//! The validator: the checks that a changelog must pass, in their order.

use crate::document::{ChangelogDocument, DocumentView, IssueView, ParseIssue, ReleaseView};
use crate::document::{descending, is_semver_desc_sorted};
use crate::sections::SectionView;
use crate::document::issue_message;
use crate::text::{contains, decimal, is_blank, joined, lemma_contains_within, occurs_at};
use crate::text::{to_chars, trimmed};
use vstd::prelude::*;

verus! {

/// Whether the release at index `i` has the version of an earlier release.
pub open spec fn repeats(rs: Seq<ReleaseView>, i: int) -> bool {
    exists|j: int| 0 <= j < i && (#[trigger] rs[j]).version == rs[i].version
}

/// The index of the first release from index `i` on that repeats an earlier
/// version, or the number of releases if there is none.
pub open spec fn first_repeat(rs: Seq<ReleaseView>, i: int) -> int
    decreases rs.len() - i,
{
    if i < 0 || i >= rs.len() {
        rs.len() as int
    } else if repeats(rs, i) {
        i
    } else {
        first_repeat(rs, i + 1)
    }
}

pub open spec fn blank_title_issue() -> IssueView {
    IssueView {
        line: 1,
        expected: "a non-empty title"@,
        found: "empty title"@,
        fix: "use '# Changelog' as the first heading"@,
    }
}

/// The issue of a release, at index `i`, whose version stood before.
pub open spec fn duplicate_issue(rs: Seq<ReleaseView>, i: int) -> IssueView {
    IssueView {
        line: (i + 2) as nat,
        expected: "unique release versions"@,
        found: "duplicate "@ + rs[i].version.text(),
        fix: "remove duplicates or merge notes into one release"@,
    }
}

pub open spec fn no_sections_issue(r: ReleaseView, i: int) -> IssueView {
    IssueView {
        line: (i + 2) as nat,
        expected: "at least one section per release in --strict mode"@,
        found: "release "@ + r.version.text() + " has no sections"@,
        fix: "add a section like '### Added' with notes"@,
    }
}

pub open spec fn blank_section_issue(i: int) -> IssueView {
    IssueView {
        line: (i + 2) as nat,
        expected: "non-empty section headings"@,
        found: "empty section heading"@,
        fix: "rename section to something like 'Added'"@,
    }
}

pub open spec fn no_notes_issue(s: SectionView, i: int) -> IssueView {
    IssueView {
        line: (i + 2) as nat,
        expected: "non-empty section notes in --strict mode"@,
        found: "section '"@ + s.name + "' has no notes"@,
        fix: "add at least one note under this section"@,
    }
}

pub open spec fn order_issue() -> IssueView {
    IssueView {
        line: 2,
        expected: "releases sorted descending by SemVer"@,
        found: "out-of-order versions"@,
        fix: "sort releases so highest version comes first"@,
    }
}

/// The issue of one section of the release at index `i`, if it has one: a
/// blank name, or under `strict` no notes.
pub open spec fn section_issue(s: SectionView, i: int, strict: bool) -> Option<IssueView> {
    if is_blank(s.name) {
        Some(blank_section_issue(i))
    } else if strict && s.notes.len() == 0 {
        Some(no_notes_issue(s, i))
    } else {
        None
    }
}

/// The issue of the first section from index `k` on that has one.
pub open spec fn sections_issue(ss: Seq<SectionView>, k: int, i: int, strict: bool) -> Option<
    IssueView,
>
    decreases ss.len() - k,
{
    if k < 0 || k >= ss.len() {
        None
    } else if section_issue(ss[k], i, strict) is Some {
        section_issue(ss[k], i, strict)
    } else {
        sections_issue(ss, k + 1, i, strict)
    }
}

/// The issue of the release at index `i`, if it has one: under `strict` no
/// sections at all, else the first issue of its sections.
pub open spec fn release_issue(r: ReleaseView, i: int, strict: bool) -> Option<IssueView> {
    if strict && r.sections.len() == 0 {
        Some(no_sections_issue(r, i))
    } else {
        sections_issue(r.sections, 0, i, strict)
    }
}

/// The issue of the first release from index `i` on that has one.
pub open spec fn releases_issue(rs: Seq<ReleaseView>, i: int, strict: bool) -> Option<IssueView>
    decreases rs.len() - i,
{
    if i < 0 || i >= rs.len() {
        None
    } else if release_issue(rs[i], i, strict) is Some {
        release_issue(rs[i], i, strict)
    } else {
        releases_issue(rs, i + 1, strict)
    }
}

/// What validation answers: the first failure of these checks, in this
/// order. The title is not blank. No release repeats the version of an
/// earlier one. No release has an issue in its sections, which under
/// `strict` includes having no sections or a section without notes. The
/// releases stand from newest to oldest.
pub open spec fn validation(d: DocumentView, strict: bool) -> Result<(), IssueView> {
    if is_blank(d.title) {
        Err(blank_title_issue())
    } else if first_repeat(d.releases, 0) < d.releases.len() {
        Err(duplicate_issue(d.releases, first_repeat(d.releases, 0)))
    } else if releases_issue(d.releases, 0, strict) is Some {
        Err(releases_issue(d.releases, 0, strict)->0)
    } else if !descending(d.releases) {
        Err(order_issue())
    } else {
        Ok(())
    }
}

pub proof fn lemma_first_repeat_bounds(rs: Seq<ReleaseView>, i: int)
    requires
        0 <= i <= rs.len(),
    ensures
        i <= first_repeat(rs, i) <= rs.len(),
        first_repeat(rs, i) < rs.len() ==> repeats(rs, first_repeat(rs, i)),
        forall|k: int| i <= k < first_repeat(rs, i) ==> !repeats(rs, k),
    decreases rs.len() - i,
{
    if i < rs.len() && !repeats(rs, i) {
        lemma_first_repeat_bounds(rs, i + 1);
    }
}

proof fn lemma_sections_pass(ss: Seq<SectionView>, k: int, i: int, strict: bool, at: int)
    requires
        0 <= k <= at < ss.len(),
        sections_issue(ss, k, i, strict) is None,
    ensures
        section_issue(ss[at], i, strict) is None,
    decreases ss.len() - k,
{
    if k < at {
        lemma_sections_pass(ss, k + 1, i, strict, at);
    }
}

proof fn lemma_releases_pass(rs: Seq<ReleaseView>, i: int, strict: bool, at: int)
    requires
        0 <= i <= at < rs.len(),
        releases_issue(rs, i, strict) is None,
    ensures
        release_issue(rs[at], at, strict) is None,
    decreases rs.len() - i,
{
    if i < at {
        lemma_releases_pass(rs, i + 1, strict, at);
    }
}

/// What validation vouches for. In a valid changelog the title is not
/// blank, no two releases have the same version, no section has a blank
/// name, and the releases stand from newest to oldest; under `strict` every
/// release has a section and every section a note.
pub proof fn lemma_valid_changelog(d: DocumentView, strict: bool)
    requires
        validation(d, strict) is Ok,
    ensures
        !is_blank(d.title),
        forall|i: int, j: int|
            0 <= j < i < d.releases.len() ==> d.releases[j].version != d.releases[i].version,
        forall|i: int, k: int|
            0 <= i < d.releases.len() && 0 <= k < d.releases[i].sections.len() ==> !is_blank(
                #[trigger] d.releases[i].sections[k].name,
            ),
        descending(d.releases),
        strict ==> forall|i: int|
            0 <= i < d.releases.len() ==> (#[trigger] d.releases[i]).sections.len() > 0,
        strict ==> forall|i: int, k: int|
            0 <= i < d.releases.len() && 0 <= k < d.releases[i].sections.len() ==> (
            #[trigger] d.releases[i].sections[k]).notes.len() > 0,
{
    let rs = d.releases;
    lemma_first_repeat_bounds(rs, 0);
    assert forall|i: int, j: int| 0 <= j < i < rs.len() implies rs[j].version
        != rs[i].version by {
        if rs[j].version == rs[i].version {
            assert(repeats(rs, i));
        }
    }
    assert forall|i: int| 0 <= i < rs.len() implies release_issue(
        #[trigger] rs[i],
        i,
        strict,
    ) is None by {
        lemma_releases_pass(rs, 0, strict, i);
    }
    assert forall|i: int, k: int| 0 <= i < rs.len() && 0 <= k < rs[i].sections.len() implies {
        &&& !is_blank(#[trigger] rs[i].sections[k].name)
        &&& strict ==> rs[i].sections[k].notes.len() > 0
    } by {
        assert(release_issue(rs[i], i, strict) is None);
        lemma_sections_pass(rs[i].sections, 0, i, strict, k);
    }
    if strict {
        assert forall|i: int| 0 <= i < rs.len() implies (#[trigger] rs[i]).sections.len() > 0 by {
            assert(release_issue(rs[i], i, strict) is None);
        }
        assert forall|i: int, k: int| 0 <= i < rs.len() && 0 <= k < rs[i].sections.len() implies (
        #[trigger] rs[i].sections[k]).notes.len() > 0 by {
            assert(release_issue(rs[i], i, strict) is None);
            lemma_sections_pass(rs[i].sections, 0, i, strict, k);
        }
    }
}

/// A changelog whose releases do not stand from newest to oldest is not
/// valid, strict or not.
pub proof fn lemma_disorder_is_invalid(d: DocumentView, strict: bool)
    requires
        !descending(d.releases),
    ensures
        validation(d, strict) is Err,
{
}

/// The message of the issue of releases out of order names SemVer.
pub proof fn lemma_order_issue_names_semver()
    ensures
        contains(order_issue().expected, "SemVer"@),
        contains(issue_message(order_issue()), "SemVer"@),
{
    reveal_strlit("releases sorted descending by SemVer");
    reveal_strlit("SemVer");
    let e = order_issue();
    assert(e.expected.subrange(30, 36) =~= "SemVer"@);
    assert(occurs_at(e.expected, "SemVer"@, 30));
    let head = "Invalid changelog at line "@ + decimal(e.line) + ": expected "@;
    let tail = ", found "@ + e.found + ". Fix: "@ + e.fix;
    lemma_contains_within(head, e.expected, tail, "SemVer"@);
    assert(issue_message(e) =~= head + e.expected + tail);
}

/// A changelog that passes the checks of its title, of repeated versions
/// and of its sections, and whose releases do not stand from newest to
/// oldest, fails with the issue that names SemVer, strict or not.
pub proof fn lemma_disorder_cites_semver(d: DocumentView, strict: bool)
    requires
        !descending(d.releases),
        !is_blank(d.title),
        first_repeat(d.releases, 0) >= d.releases.len(),
        releases_issue(d.releases, 0, strict) is None,
    ensures
        validation(d, strict) == Err::<(), IssueView>(order_issue()),
        contains(issue_message(order_issue()), "SemVer"@),
{
    lemma_order_issue_names_semver();
}

/// A changelog in which the release at index `i` has the version of the
/// release at an earlier index `j` is not valid, strict or not. Unless its
/// title is blank, the issue is that of the first release that repeats a
/// version, and it names that version.
pub proof fn lemma_duplicate_fails(d: DocumentView, strict: bool, i: int, j: int)
    requires
        0 <= j < i < d.releases.len(),
        d.releases[j].version == d.releases[i].version,
    ensures
        validation(d, strict) is Err,
        0 <= first_repeat(d.releases, 0) <= i,
        repeats(d.releases, first_repeat(d.releases, 0)),
        !is_blank(d.title) ==> validation(d, strict) == Err::<(), IssueView>(
            duplicate_issue(d.releases, first_repeat(d.releases, 0)),
        ),
        duplicate_issue(d.releases, first_repeat(d.releases, 0)).found == "duplicate "@
            + d.releases[first_repeat(d.releases, 0)].version.text(),
{
    lemma_first_repeat_bounds(d.releases, 0);
    assert(repeats(d.releases, i));
}

fn is_blank_text(s: &str) -> (r: bool)
    ensures
        r == is_blank(s@),
{
    let chars = to_chars(s);
    trimmed(&chars).len() == 0
}

impl ChangelogDocument {
    /// The index of the first release that repeats an earlier version, or
    /// the number of releases.
    #[verifier::loop_isolation(false)]
    fn find_repeat(&self) -> (r: usize)
        ensures
            r == first_repeat(self@.releases, 0),
            r <= self.releases.len(),
    {
        let ghost rs = self@.releases;
        let mut i: usize = 0;
        while i < self.releases.len()
            invariant
                i <= self.releases.len(),
                rs == self@.releases,
                first_repeat(rs, 0) == first_repeat(rs, i as int),
            decreases self.releases.len() - i,
        {
            let mut j: usize = 0;
            while j < i
                invariant
                    j <= i < self.releases.len(),
                    rs == self@.releases,
                    forall|k: int| 0 <= k < j ==> (#[trigger] rs[k]).version != rs[i as int].version,
                decreases i - j,
            {
                if self.releases[j].version.same(&self.releases[i].version) {
                    assert(rs[j as int].version == rs[i as int].version);
                    assert(repeats(rs, i as int));
                    return i;
                }
                j += 1;
            }
            assert(!repeats(rs, i as int));
            i += 1;
        }
        i
    }

    /// The first issue in the sections of the release at index `i`.
    #[verifier::loop_isolation(false)]
    fn check_release(&self, i: usize, strict: bool) -> (r: Option<ParseIssue>)
        requires
            i < self.releases.len(),
            i + 2 <= usize::MAX,
        ensures
            r is Some == release_issue(self@.releases[i as int], i as int, strict) is Some,
            r matches Some(e) ==> Some(e@) == release_issue(
                self@.releases[i as int],
                i as int,
                strict,
            ),
    {
        let release = &self.releases[i];
        let ghost view = self@.releases[i as int];
        assert(view == release@);
        if strict && release.sections.is_empty() {
            let text = release.version.to_string();
            let head = joined("release ", text.as_str());
            let found = joined(head.as_str(), " has no sections");
            return Some(
                ParseIssue {
                    line: i + 2,
                    expected: "at least one section per release in --strict mode".to_owned(),
                    found,
                    fix: "add a section like '### Added' with notes".to_owned(),
                },
            );
        }
        let mut k: usize = 0;
        while k < release.sections.len()
            invariant
                k <= release.sections@.len(),
                view == release@,
                i + 2 <= usize::MAX,
                sections_issue(view.sections, 0, i as int, strict) == sections_issue(
                    view.sections,
                    k as int,
                    i as int,
                    strict,
                ),
            decreases release.sections@.len() - k,
        {
            let section = release.sections.section(k);
            if is_blank_text(section.name.as_str()) {
                return Some(
                    ParseIssue::new(
                        i + 2,
                        "non-empty section headings",
                        "empty section heading",
                        "rename section to something like 'Added'",
                    ),
                );
            }
            if strict && section.notes.len() == 0 {
                let head = joined("section '", section.name.as_str());
                let found = joined(head.as_str(), "' has no notes");
                return Some(
                    ParseIssue {
                        line: i + 2,
                        expected: "non-empty section notes in --strict mode".to_owned(),
                        found,
                        fix: "add at least one note under this section".to_owned(),
                    },
                );
            }
            k += 1;
        }
        None
    }

    /// Checks the changelog and returns the first failure.
    #[verifier::loop_isolation(false)]
    pub fn validate(&self, strict: bool) -> (r: Result<(), ParseIssue>)
        requires
            self.releases.len() + 2 <= usize::MAX,
        ensures
            r is Ok == validation(self@, strict) is Ok,
            r matches Err(e) ==> validation(self@, strict) == Err::<(), IssueView>(e@),
    {
        if is_blank_text(self.title.as_str()) {
            return Err(
                ParseIssue::new(
                    1,
                    "a non-empty title",
                    "empty title",
                    "use '# Changelog' as the first heading",
                ),
            );
        }
        let ghost rs = self@.releases;
        let at = self.find_repeat();
        if at < self.releases.len() {
            let text = self.releases[at].version.to_string();
            let found = joined("duplicate ", text.as_str());
            assert(rs[at as int] == self.releases@[at as int]@);
            return Err(
                ParseIssue {
                    line: at + 2,
                    expected: "unique release versions".to_owned(),
                    found,
                    fix: "remove duplicates or merge notes into one release".to_owned(),
                },
            );
        }
        let mut i: usize = 0;
        while i < self.releases.len()
            invariant
                i <= self.releases.len(),
                self.releases.len() + 2 <= usize::MAX,
                rs == self@.releases,
                releases_issue(rs, 0, strict) == releases_issue(rs, i as int, strict),
            decreases self.releases.len() - i,
        {
            match self.check_release(i, strict) {
                Some(e) => {
                    return Err(e);
                },
                None => {},
            }
            i += 1;
        }
        if !is_semver_desc_sorted(self.releases.as_slice()) {
            return Err(
                ParseIssue::new(
                    2,
                    "releases sorted descending by SemVer",
                    "out-of-order versions",
                    "sort releases so highest version comes first",
                ),
            );
        }
        Ok(())
    }
}

} // verus!
