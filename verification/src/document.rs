//! The changelog document: its releases, their headings and sections, and
//! the operations that change a document.

use crate::sections::{SectionMap, SectionView, with_note};
use crate::text::{contains, decimal, decimal_chars, from_chars, joined, lemma_contains_within};
use crate::text::{occurs_at, push_all, same_text, to_chars};
use crate::version::{Version, VersionView, version_order};
use vstd::prelude::*;

verus! {

/// The mathematical value of a [`HeaderFormat`].
pub enum HeaderView {
    Default,
    Plain,
    VersionOnly,
    Custom(Seq<char>),
}

/// The mathematical value of a [`Release`].
pub struct ReleaseView {
    pub version: VersionView,
    pub date: Option<Seq<char>>,
    pub header: HeaderView,
    pub sections: Seq<SectionView>,
}

/// The mathematical value of a [`ChangelogDocument`].
pub struct DocumentView {
    pub title: Seq<char>,
    pub releases: Seq<ReleaseView>,
}

/// The mathematical value of a [`ParseIssue`].
pub struct IssueView {
    pub line: nat,
    pub expected: Seq<char>,
    pub found: Seq<char>,
    pub fix: Seq<char>,
}

/// How the heading of a release is written.
#[derive(Debug, PartialEq, Eq)]
pub enum HeaderFormat {
    /// The version in brackets, then a dash and the date.
    Default,
    /// The bare version, then a dash and the date.
    Plain,
    /// The version in brackets and never a date.
    VersionOnly,
    /// A literal heading in which `{version}` and `{date}` are filled in.
    Custom(String),
}

impl View for HeaderFormat {
    type V = HeaderView;

    open spec fn view(&self) -> HeaderView {
        match self {
            HeaderFormat::Default => HeaderView::Default,
            HeaderFormat::Plain => HeaderView::Plain,
            HeaderFormat::VersionOnly => HeaderView::VersionOnly,
            HeaderFormat::Custom(t) => HeaderView::Custom(t@),
        }
    }
}

impl Clone for HeaderFormat {
    fn clone(&self) -> (r: Self)
        ensures
            r@ == self@,
    {
        match self {
            HeaderFormat::Default => HeaderFormat::Default,
            HeaderFormat::Plain => HeaderFormat::Plain,
            HeaderFormat::VersionOnly => HeaderFormat::VersionOnly,
            HeaderFormat::Custom(t) => HeaderFormat::Custom(t.clone()),
        }
    }
}

/// A defect in a changelog: where it is, what was expected, what stands
/// there and how to mend it.
#[derive(Debug, PartialEq, Eq)]
pub struct ParseIssue {
    /// The line, counted from 1.
    pub line: usize,
    pub expected: String,
    pub found: String,
    pub fix: String,
}

impl View for ParseIssue {
    type V = IssueView;

    open spec fn view(&self) -> IssueView {
        IssueView {
            line: self.line as nat,
            expected: self.expected@,
            found: self.found@,
            fix: self.fix@,
        }
    }
}

impl Clone for ParseIssue {
    fn clone(&self) -> (r: Self)
        ensures
            r@ == self@,
    {
        ParseIssue {
            line: self.line,
            expected: self.expected.clone(),
            found: self.found.clone(),
            fix: self.fix.clone(),
        }
    }
}

/// The one sentence that tells all four parts of an issue.
pub open spec fn issue_message(e: IssueView) -> Seq<char> {
    "Invalid changelog at line "@ + decimal(e.line) + ": expected "@ + e.expected + ", found "@
        + e.found + ". Fix: "@ + e.fix
}

/// The message of every issue names its fix behind the word "Fix:".
pub proof fn lemma_message_names_fix(e: IssueView)
    ensures
        contains(issue_message(e), "Fix:"@),
{
    reveal_strlit(". Fix: ");
    reveal_strlit("Fix:");
    let mark = ". Fix: "@;
    assert(mark.subrange(2, 6) =~= "Fix:"@);
    assert(occurs_at(mark, "Fix:"@, 2));
    let head = "Invalid changelog at line "@ + decimal(e.line) + ": expected "@ + e.expected
        + ", found "@ + e.found;
    lemma_contains_within(head, mark, e.fix, "Fix:"@);
}

impl ParseIssue {
    /// An issue made of literal texts.
    pub fn new(line: usize, expected: &str, found: &str, fix: &str) -> (r: ParseIssue)
        ensures
            r@ == (IssueView { line: line as nat, expected: expected@, found: found@, fix: fix@ }),
    {
        ParseIssue {
            line,
            expected: expected.to_owned(),
            found: found.to_owned(),
            fix: fix.to_owned(),
        }
    }

    /// The issue as one sentence.
    pub fn message(&self) -> (s: String)
        ensures
            s@ == issue_message(self@),
    {
        let mut out = to_chars("Invalid changelog at line ");
        let number = decimal_chars(self.line as u64);
        push_all(&mut out, &number);
        let a = to_chars(": expected ");
        push_all(&mut out, &a);
        let expected = to_chars(self.expected.as_str());
        push_all(&mut out, &expected);
        let b = to_chars(", found ");
        push_all(&mut out, &b);
        let found = to_chars(self.found.as_str());
        push_all(&mut out, &found);
        let c = to_chars(". Fix: ");
        push_all(&mut out, &c);
        let fix = to_chars(self.fix.as_str());
        push_all(&mut out, &fix);
        from_chars(&out)
    }
}

/// One versioned entry of the changelog.
#[derive(Debug, PartialEq, Eq)]
pub struct Release {
    pub version: Version,
    pub date: Option<String>,
    pub header: HeaderFormat,
    pub sections: SectionMap,
}

pub open spec fn option_view(o: Option<String>) -> Option<Seq<char>> {
    match o {
        Some(s) => Some(s@),
        None => None,
    }
}

impl View for Release {
    type V = ReleaseView;

    open spec fn view(&self) -> ReleaseView {
        ReleaseView {
            version: self.version@,
            date: option_view(self.date),
            header: self.header@,
            sections: self.sections@,
        }
    }
}

impl Clone for Release {
    fn clone(&self) -> (r: Self)
        ensures
            r@ == self@,
    {
        let date = match &self.date {
            Some(d) => Some(d.clone()),
            None => None,
        };
        Release {
            version: self.version.clone(),
            date,
            header: self.header.clone(),
            sections: self.sections.clone(),
        }
    }
}

/// Today's date in UTC, written as year, month and day joined by hyphens,
/// from `chrono::Utc::now`. It depends on the clock, so nothing is stated
/// of it. `Utc::now` panics if the clock stands before the year 1970.
#[verifier::external_body]
pub(crate) fn today() -> (date: String) {
    chrono::Utc::now().format("%Y-%m-%d").to_string()
}

impl Release {
    /// A release without sections, dated or not, with the default heading.
    pub fn dated(version: Version, date: Option<String>) -> (r: Release)
        ensures
            r@ == (ReleaseView {
                version: version@,
                date: option_view(date),
                header: HeaderView::Default,
                sections: Seq::<SectionView>::empty(),
            }),
    {
        Release { version, date, header: HeaderFormat::Default, sections: SectionMap::new() }
    }

    /// A release of today without sections, with the default heading.
    pub fn new(version: Version) -> (r: Release)
        ensures
            r@.version == version@,
            r@.date is Some,
            r@.header == HeaderView::Default,
            r@.sections == Seq::<SectionView>::empty(),
    {
        Release::dated(version, Some(today()))
    }

    /// Appends a note to a section, which is created if it is not there.
    pub fn add_note(&mut self, section: String, note: String)
        ensures
            final(self)@ == (ReleaseView {
                sections: with_note(old(self)@.sections, section@, note@),
                ..old(self)@
            }),
    {
        self.sections.add_note(section, note);
    }
}

/// The views of a sequence of releases.
pub open spec fn release_views(v: Seq<Release>) -> Seq<ReleaseView> {
    Seq::new(v.len(), |i: int| v[i]@)
}

/// A changelog: a title and its releases, newest first once validated.
#[derive(Debug, PartialEq, Eq)]
pub struct ChangelogDocument {
    pub title: String,
    pub releases: Vec<Release>,
}

impl View for ChangelogDocument {
    type V = DocumentView;

    open spec fn view(&self) -> DocumentView {
        DocumentView { title: self.title@, releases: release_views(self.releases@) }
    }
}

/// A copy of a list of releases.
pub fn clone_releases(v: &Vec<Release>) -> (r: Vec<Release>)
    ensures
        release_views(r@) == release_views(v@),
{
    let mut r: Vec<Release> = Vec::new();
    let mut i: usize = 0;
    while i < v.len()
        invariant
            i <= v.len(),
            r.len() == i,
            forall|j: int| 0 <= j < i ==> r@[j]@ == v@[j]@,
        decreases v.len() - i,
    {
        r.push(v[i].clone());
        i += 1;
    }
    assert(release_views(r@) =~= release_views(v@));
    r
}

impl Clone for ChangelogDocument {
    fn clone(&self) -> (r: Self)
        ensures
            r@ == self@,
    {
        ChangelogDocument { title: self.title.clone(), releases: clone_releases(&self.releases) }
    }
}

/// Whether every release is at least as new as the one after it.
pub open spec fn descending(rs: Seq<ReleaseView>) -> bool {
    forall|i: int|
        0 <= i < rs.len() - 1 ==> version_order(#[trigger] rs[i].version, rs[i + 1].version) >= 0
}

/// `sorted` with `r` put behind the last release that is not older than it.
pub open spec fn insert_descending(sorted: Seq<ReleaseView>, r: ReleaseView) -> Seq<ReleaseView>
    decreases sorted.len(),
{
    if sorted.len() > 0 && version_order(sorted.last().version, r.version) < 0 {
        insert_descending(sorted.drop_last(), r).push(sorted.last())
    } else {
        sorted.push(r)
    }
}

/// The releases from newest to oldest, those of one version in the order
/// in which they stood.
pub open spec fn sort_descending(rs: Seq<ReleaseView>) -> Seq<ReleaseView>
    decreases rs.len(),
{
    if rs.len() == 0 {
        rs
    } else {
        insert_descending(sort_descending(rs.drop_last()), rs.last())
    }
}

/// The index of the first release of the given version, or the number of
/// releases if there is none.
pub open spec fn index_of_version(rs: Seq<ReleaseView>, v: VersionView) -> int
    decreases rs.len(),
{
    if rs.len() == 0 || rs[0].version == v {
        0
    } else {
        1 + index_of_version(rs.skip(1), v)
    }
}

/// The releases that are not of the given version.
pub open spec fn without_version(rs: Seq<ReleaseView>, v: VersionView) -> Seq<ReleaseView>
    decreases rs.len(),
{
    if rs.len() == 0 {
        rs
    } else if rs.last().version == v {
        without_version(rs.drop_last(), v)
    } else {
        without_version(rs.drop_last(), v).push(rs.last())
    }
}

/// The releases with `r` in the place of the first release of its version,
/// or at the end if there is none.
pub open spec fn with_release(rs: Seq<ReleaseView>, r: ReleaseView) -> Seq<ReleaseView> {
    let i = index_of_version(rs, r.version);
    if 0 <= i < rs.len() {
        rs.update(i, r)
    } else {
        rs.push(r)
    }
}

/// What the refusal to replace a release says.
pub open spec fn exists_message(v: VersionView) -> Seq<char> {
    "release "@ + v.text() + " already exists (use --override to replace it)"@
}

pub proof fn lemma_index_of_version_is(rs: Seq<ReleaseView>, v: VersionView, k: int)
    requires
        0 <= k <= rs.len(),
        forall|i: int| 0 <= i < k ==> (#[trigger] rs[i]).version != v,
        k < rs.len() ==> rs[k].version == v,
    ensures
        index_of_version(rs, v) == k,
    decreases k,
{
    if k > 0 {
        assert(rs[0].version != v);
        assert forall|i: int| 0 <= i < k - 1 implies (#[trigger] rs.skip(1)[i]).version != v by {
            assert(rs.skip(1)[i] == rs[i + 1]);
        }
        lemma_index_of_version_is(rs.skip(1), v, k - 1);
    }
}

/// Whether the releases stand from newest to oldest.
pub fn is_semver_desc_sorted(releases: &[Release]) -> (r: bool)
    ensures
        r == descending(release_views(releases@)),
{
    if releases.len() < 2 {
        return true;
    }
    let mut i: usize = 0;
    while i < releases.len() - 1
        invariant
            releases.len() >= 2,
            i <= releases.len() - 1,
            forall|j: int|
                0 <= j < i ==> version_order(
                    #[trigger] release_views(releases@)[j].version,
                    release_views(releases@)[j + 1].version,
                ) >= 0,
        decreases releases.len() - i,
    {
        if releases[i].version.compare(&releases[i + 1].version) < 0 {
            assert(version_order(
                release_views(releases@)[i as int].version,
                release_views(releases@)[i + 1].version,
            ) < 0);
            return false;
        }
        i += 1;
    }
    true
}

/// Reads the name of a heading style; any other text is a custom heading.
pub fn parse_header_format(input: &str) -> (r: HeaderFormat)
    ensures
        r@ == header_of_name(input@),
{
    if same_text(input, "default") || same_text(input, "brackets") {
        HeaderFormat::Default
    } else if same_text(input, "plain") {
        HeaderFormat::Plain
    } else if same_text(input, "version-only") {
        HeaderFormat::VersionOnly
    } else {
        HeaderFormat::Custom(input.to_owned())
    }
}

pub open spec fn header_of_name(name: Seq<char>) -> HeaderView {
    if name == "default"@ || name == "brackets"@ {
        HeaderView::Default
    } else if name == "plain"@ {
        HeaderView::Plain
    } else if name == "version-only"@ {
        HeaderView::VersionOnly
    } else {
        HeaderView::Custom(name)
    }
}

impl ChangelogDocument {
    /// An empty changelog under the title "Changelog".
    pub fn scaffold() -> (d: ChangelogDocument)
        ensures
            d@ == (DocumentView { title: "Changelog"@, releases: Seq::<ReleaseView>::empty() }),
    {
        let d = ChangelogDocument { title: "Changelog".to_owned(), releases: Vec::new() };
        assert(release_views(d.releases@) =~= Seq::<ReleaseView>::empty());
        d
    }

    /// Puts `r` behind the last release that is not older than it.
    fn insert_sorted(releases: &mut Vec<Release>, r: Release)
        ensures
            release_views(final(releases)@) == insert_descending(release_views(old(releases)@), r@),
            descending(release_views(old(releases)@)) ==> descending(
                release_views(final(releases)@),
            ),
    {
        let ghost before = release_views(releases@);
        let mut p: usize = releases.len();
        proof {
            assert(before.take(p as int) == before);
            assert(before.skip(p as int) =~= Seq::<ReleaseView>::empty());
            assert(insert_descending(before, r@) + Seq::<ReleaseView>::empty()
                =~= insert_descending(before, r@));
        }
        while p > 0 && releases[p - 1].version.compare(&r.version) < 0
            invariant
                p <= releases.len(),
                before == release_views(releases@),
                insert_descending(before, r@) == insert_descending(before.take(p as int), r@)
                    + before.skip(p as int),
                forall|i: int|
                    p <= i < before.len() ==> version_order(
                        (#[trigger] before[i]).version,
                        r@.version,
                    ) < 0 && version_order(r@.version, before[i].version) > 0,
            decreases p,
        {
            proof {
                let prefix = before.take(p as int);
                assert(prefix.last() == before[p - 1]);
                assert(prefix.drop_last() == before.take(p - 1));
                assert(insert_descending(prefix, r@) == insert_descending(
                    before.take(p - 1),
                    r@,
                ).push(before[p - 1]));
                assert(insert_descending(before.take(p - 1), r@).push(before[p - 1])
                    + before.skip(p as int) =~= insert_descending(before.take(p - 1), r@)
                    + before.skip(p - 1));
            }
            p -= 1;
        }
        proof {
            let prefix = before.take(p as int);
            if p > 0 {
                assert(prefix.last() == before[p - 1]);
            }
            assert(insert_descending(prefix, r@) == prefix.push(r@));
            assert(prefix.push(r@) + before.skip(p as int) =~= before.insert(p as int, r@));
            assert(release_views(releases@.insert(p as int, r)) =~= before.insert(p as int, r@));
            if descending(before) {
                let out = before.insert(p as int, r@);
                assert forall|i: int| 0 <= i < out.len() - 1 implies version_order(
                    #[trigger] out[i].version,
                    out[i + 1].version,
                ) >= 0 by {
                    if i + 1 < p {
                        assert(out[i] == before[i] && out[i + 1] == before[i + 1]);
                    } else if i + 1 == p {
                        assert(out[i] == before[p - 1]);
                    } else if i == p {
                        assert(out[i + 1] == before[p as int]);
                    } else {
                        assert(out[i] == before[i - 1] && out[i + 1] == before[i - 1 + 1]);
                    }
                }
            }
        }
        releases.insert(p, r);
    }

    /// Sorts the releases from newest to oldest; releases of one version
    /// keep their order.
    pub fn sort_semver_desc(&mut self)
        ensures
            final(self)@.title == old(self)@.title,
            final(self)@.releases == sort_descending(old(self)@.releases),
            descending(final(self)@.releases),
    {
        let mut rest: Vec<Release> = Vec::new();
        std::mem::swap(&mut self.releases, &mut rest);
        let ghost before = release_views(rest@);
        let mut sorted: Vec<Release> = Vec::new();
        let mut i: usize = 0;
        let n = rest.len();
        proof {
            assert(before.take(0) =~= Seq::<ReleaseView>::empty());
            assert(before.skip(0) == before);
            assert(release_views(sorted@) =~= Seq::<ReleaseView>::empty());
        }
        while i < n
            invariant
                i <= n,
                n == before.len(),
                rest.len() == n - i,
                release_views(rest@) == before.skip(i as int),
                release_views(sorted@) == sort_descending(before.take(i as int)),
                descending(release_views(sorted@)),
            decreases n - i,
        {
            assert(release_views(rest@)[0] == before[i as int]);
            assert forall|j: int| 0 <= j < rest.len() - 1 implies release_views(
                rest@.remove(0),
            )[j] == before.skip(i + 1)[j] by {
                assert(rest@.remove(0)[j] == rest@[j + 1]);
                assert(release_views(rest@)[j + 1] == before.skip(i as int)[j + 1]);
            }
            assert(release_views(rest@.remove(0)) =~= before.skip(i + 1));
            let r = rest.remove(0);
            proof {
                assert(r@ == before[i as int]);
                assert(before.take(i + 1).drop_last() == before.take(i as int));
                assert(before.take(i + 1).last() == before[i as int]);
            }
            Self::insert_sorted(&mut sorted, r);
            i += 1;
        }
        assert(before.take(n as int) == before);
        self.releases = sorted;
    }

    /// Removes every release of the given version and tells whether there
    /// was one.
    pub fn remove_version(&mut self, version: &Version) -> (removed: bool)
        ensures
            final(self)@.title == old(self)@.title,
            final(self)@.releases == without_version(old(self)@.releases, version@),
            removed == (final(self)@.releases.len() != old(self)@.releases.len()),
    {
        let mut rest: Vec<Release> = Vec::new();
        std::mem::swap(&mut self.releases, &mut rest);
        let ghost before = release_views(rest@);
        let n = rest.len();
        let mut kept: Vec<Release> = Vec::new();
        let mut i: usize = 0;
        proof {
            assert(before.take(0) =~= Seq::<ReleaseView>::empty());
            assert(before.skip(0) == before);
            assert(release_views(kept@) =~= Seq::<ReleaseView>::empty());
        }
        while i < n
            invariant
                i <= n,
                n == before.len(),
                rest.len() == n - i,
                release_views(rest@) == before.skip(i as int),
                release_views(kept@) == without_version(before.take(i as int), version@),
            decreases n - i,
        {
            assert(release_views(rest@)[0] == before[i as int]);
            assert forall|j: int| 0 <= j < rest.len() - 1 implies release_views(
                rest@.remove(0),
            )[j] == before.skip(i + 1)[j] by {
                assert(rest@.remove(0)[j] == rest@[j + 1]);
                assert(release_views(rest@)[j + 1] == before.skip(i as int)[j + 1]);
            }
            assert(release_views(rest@.remove(0)) =~= before.skip(i + 1));
            let r = rest.remove(0);
            proof {
                assert(r@ == before[i as int]);
                assert(before.take(i + 1).drop_last() == before.take(i as int));
                assert(before.take(i + 1).last() == before[i as int]);
            }
            if !r.version.same(version) {
                assert(release_views(kept@.push(r)) =~= release_views(kept@).push(r@));
                kept.push(r);
            }
            i += 1;
        }
        assert(before.take(n as int) == before);
        let removed = kept.len() != n;
        self.releases = kept;
        removed
    }

    /// Puts a release into the changelog and sorts the releases from newest
    /// to oldest. A release of a version that is already there takes the
    /// place of the first one of that version if `override_existing` is
    /// set; otherwise the changelog stays as it is and the refusal is
    /// returned.
    pub fn upsert_release(&mut self, release: Release, override_existing: bool) -> (r: Result<
        (),
        String,
    >)
        ensures
            final(self)@.title == old(self)@.title,
            r is Err <==> !override_existing && index_of_version(
                old(self)@.releases,
                release@.version,
            ) < old(self)@.releases.len(),
            r matches Err(e) ==> e@ == exists_message(release@.version) && final(self)@ == old(
                self,
            )@,
            r is Ok ==> final(self)@.releases == sort_descending(
                with_release(old(self)@.releases, release@),
            ) && descending(final(self)@.releases),
    {
        let ghost before = self@.releases;
        let mut i: usize = 0;
        while i < self.releases.len() && !self.releases[i].version.same(&release.version)
            invariant
                i <= self.releases.len(),
                before == self@.releases,
                self@.title == old(self)@.title,
                forall|j: int| 0 <= j < i ==> (#[trigger] before[j]).version != release@.version,
            decreases self.releases.len() - i,
        {
            i += 1;
        }
        proof {
            lemma_index_of_version_is(before, release@.version, i as int);
        }
        if i < self.releases.len() {
            if !override_existing {
                let text = release.version.to_string();
                let head = joined("release ", text.as_str());
                let message = joined(
                    head.as_str(),
                    " already exists (use --override to replace it)",
                );
                return Err(message);
            }
            let ghost after = before.update(i as int, release@);
            self.releases.push(release);
            self.releases.swap_remove(i);
            assert(release_views(self.releases@) =~= after);
        } else {
            assert(release_views(self.releases@.push(release)) =~= before.push(release@));
            self.releases.push(release);
        }
        self.sort_semver_desc();
        Ok(())
    }
}

} // verus!
