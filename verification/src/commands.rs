//! What the commands of the tool decide and compute, from the text of a
//! changelog and a list of commits to the text that is written back.

use crate::commit::{Commit, messages};
use crate::document::{ChangelogDocument, DocumentView, Release, ReleaseView};
use crate::document::{exists_message, header_of_name, index_of_version, issue_message};
use crate::document::{parse_header_format, release_views, sort_descending, with_release};
use crate::document::without_version;
use crate::error::ChangelogError;
use crate::grammar::parse_text;
use crate::merge::{converge_releases, converged};
use crate::notes::{TypeMap, dedupe_sections, grouped, notes_from_commits};
use crate::render::{markdown, sections_lines, terminated};
use crate::sections::{SectionMap, SectionView};
use crate::text::{find, find_in, from_chars, joined, lemma_find_bounds, push_all, same_text};
use crate::text::{slice_of, to_chars, trim_end, trimmed_end};
use crate::validate::validation;
use crate::version::{Version, VersionView, version_of_text, version_order};
use vstd::prelude::*;

verus! {

/// The version after a bump, or `None` if `bump` names no part. A major
/// bump resets minor and patch, a minor bump resets patch; the identifiers
/// stay.
pub open spec fn bumped(v: VersionView, bump: Seq<char>) -> Option<VersionView> {
    if bump == "major"@ {
        Some(VersionView { major: (v.major + 1) as u64, minor: 0, patch: 0, ..v })
    } else if bump == "minor"@ {
        Some(VersionView { minor: (v.minor + 1) as u64, patch: 0, ..v })
    } else if bump == "patch"@ {
        Some(VersionView { patch: (v.patch + 1) as u64, ..v })
    } else {
        None
    }
}

/// Whether the part that `bump` names can grow by one.
pub open spec fn can_bump(v: VersionView, bump: Seq<char>) -> bool {
    &&& bump == "major"@ ==> v.major < u64::MAX
    &&& bump == "minor"@ ==> v.minor < u64::MAX
    &&& bump == "patch"@ ==> v.patch < u64::MAX
}

/// Whether the part that `bump` names can grow by one.
pub fn bump_fits(version: &Version, bump: &str) -> (r: bool)
    ensures
        r == can_bump(version@, bump@),
{
    proof {
        reveal_strlit("major");
        reveal_strlit("minor");
        reveal_strlit("patch");
        assert("major"@[1] != "minor"@[1]);
        assert("major"@[0] != "patch"@[0]);
        assert("minor"@[0] != "patch"@[0]);
    }
    if same_text(bump, "major") {
        version.major() < u64::MAX
    } else if same_text(bump, "minor") {
        version.minor() < u64::MAX
    } else if same_text(bump, "patch") {
        version.patch() < u64::MAX
    } else {
        true
    }
}

/// Raises the part of a version that `bump` names: "major", "minor" or
/// "patch".
pub fn bump_version(version: Version, bump: &str) -> (r: Result<Version, ChangelogError>)
    requires
        can_bump(version@, bump@),
    ensures
        r is Ok == bumped(version@, bump@) is Some,
        r matches Ok(v) ==> Some(v@) == bumped(version@, bump@),
        r matches Err(e) ==> e matches ChangelogError::InvalidArguments(m) && m@
            == "--bump must be one of: major, minor, patch"@,
{
    if same_text(bump, "major") {
        Ok(version.with_numbers(version.major() + 1, 0, 0))
    } else if same_text(bump, "minor") {
        Ok(version.with_numbers(version.major(), version.minor() + 1, 0))
    } else if same_text(bump, "patch") {
        Ok(version.with_numbers(version.major(), version.minor(), version.patch() + 1))
    } else {
        Err(
            ChangelogError::InvalidArguments(
                "--bump must be one of: major, minor, patch".to_owned(),
            ),
        )
    }
}

/// The text of the version that follows the given one by a patch.
pub fn bump_patch(version: &str) -> (r: String)
    requires
        version_of_text(version@) matches Some(v) && v.patch < u64::MAX,
    ensures
        r@ == (VersionView {
            patch: (version_of_text(version@)->0.patch + 1) as u64,
            ..version_of_text(version@)->0
        }).text(),
{
    let v = Version::parse(version).unwrap();
    v.with_numbers(v.major(), v.minor(), v.patch() + 1).to_string()
}

/// The text of the version that follows the given one by a patch, or
/// `None` if the text spells no version or the patch number cannot grow.
pub fn try_bump_patch(version: &str) -> (r: Option<String>)
    ensures
        r is Some == (version_of_text(version@) matches Some(v) && v.patch < u64::MAX),
        r matches Some(text) ==> text@ == (VersionView {
            patch: (version_of_text(version@)->0.patch + 1) as u64,
            ..version_of_text(version@)->0
        }).text(),
{
    match Version::parse(version) {
        Some(v) => {
            if v.patch() < u64::MAX {
                Some(bump_patch(version))
            } else {
                None
            }
        },
        None => None,
    }
}

/// The text of a new changelog. Only the format "markdown" is known.
pub fn new_changelog(format: &str) -> (r: Result<String, ChangelogError>)
    ensures
        r is Ok == (format@ == "markdown"@),
        r matches Ok(text) ==> text@ == markdown(
            DocumentView { title: "Changelog"@, releases: Seq::empty() },
        ),
        r matches Err(e) ==> e matches ChangelogError::InvalidArguments(m) && m@
            == "unsupported format '"@ + format@
            + "'; only 'markdown' is currently supported"@,
{
    if !same_text(format, "markdown") {
        let head = joined("unsupported format '", format);
        return Err(
            ChangelogError::InvalidArguments(
                joined(head.as_str(), "'; only 'markdown' is currently supported"),
            ),
        );
    }
    Ok(ChangelogDocument::scaffold().to_markdown())
}

/// What validating the text of a changelog answers: the issue of the
/// parser, else that of the validator.
pub open spec fn text_validation(content: Seq<char>, strict: bool) -> Result<(), Seq<char>> {
    match parse_text(content) {
        Err(e) => Err("validation failed: "@ + issue_message(e)),
        Ok(d) => match validation(d, strict) {
            Err(e) => Err("validation failed: "@ + issue_message(e)),
            Ok(()) => Ok(()),
        },
    }
}

fn too_large() -> (e: ChangelogError)
    ensures
        e is Other,
{
    ChangelogError::Other("the changelog has too many releases".to_owned())
}

/// Parses and validates the text of a changelog. A changelog with more
/// releases than can be numbered is refused as `Other`.
pub fn validate_changelog(content: &str, strict: bool) -> (r: Result<(), ChangelogError>)
    ensures
        r is Ok ==> text_validation(content@, strict) is Ok,
        text_validation(content@, strict) is Ok && parse_text(content@)->Ok_0.releases.len() + 2
            <= usize::MAX ==> r is Ok,
        r matches Err(e) ==> (e is Other || (e matches ChangelogError::InvalidArguments(m)
            && text_validation(content@, strict) == Err::<(), Seq<char>>(m@))),
        r matches Err(e) && e is Other ==> (parse_text(content@) matches Ok(d) && d.releases.len()
            + 2 > usize::MAX),
{
    let document = match ChangelogDocument::parse(content) {
        Ok(d) => d,
        Err(issue) => {
            return Err(
                ChangelogError::InvalidArguments(
                    joined("validation failed: ", issue.message().as_str()),
                ),
            );
        },
    };
    if document.releases.len() > usize::MAX - 2 {
        return Err(too_large());
    }
    match document.validate(strict) {
        Ok(()) => Ok(()),
        Err(issue) => Err(
            ChangelogError::InvalidArguments(
                joined("validation failed: ", issue.message().as_str()),
            ),
        ),
    }
}

/// Whether notes can be generated for the request: a milestone needs
/// GitHub, and with GitHub it is not supported yet.
pub fn check_generate(milestone: bool, github: bool) -> (r: Result<(), ChangelogError>)
    ensures
        r is Ok == !milestone,
        r matches Err(e) ==> (if github {
            e matches ChangelogError::UnsupportedFeature(m) && m@
                == "milestone mode requires GitHub API integration, which is not yet enabled"@
        } else {
            e matches ChangelogError::InvalidArguments(m) && m@ == "--milestone requires --github"@
        }),
{
    if milestone && !github {
        return Err(ChangelogError::InvalidArguments("--milestone requires --github".to_owned()));
    }
    if milestone {
        return Err(
            ChangelogError::UnsupportedFeature(
                "milestone mode requires GitHub API integration, which is not yet enabled".to_owned(),
            ),
        );
    }
    Ok(())
}

/// The fragment that shows grouped notes: a heading and the notes of each
/// section, or a placeholder if there is nothing to show; without
/// whitespace at the end and closed by one line feed.
pub open spec fn fragment(groups: Seq<SectionView>) -> Seq<char> {
    let body = terminated(sections_lines(groups));
    trim_end(
        if body.len() == 0 {
            "### Other\n- No user-facing changes detected\n"@
        } else {
            body
        },
    ) + seq!['\n']
}

/// Grouped notes as a markdown fragment.
pub fn render_generated_sections(grouped: &SectionMap) -> (r: String)
    ensures
        r@ == fragment(grouped@),
{
    let ghost all = grouped@;
    let mut out: Vec<char> = Vec::new();
    let mut k: usize = 0;
    proof {
        assert(all.take(0) =~= Seq::<SectionView>::empty());
        assert(sections_lines(all.take(0)) =~= Seq::<Seq<char>>::empty());
    }
    while k < grouped.len()
        invariant
            k <= all.len(),
            all == grouped@,
            out@ == terminated(sections_lines(all.take(k as int))),
        decreases all.len() - k,
    {
        let section = grouped.section(k);
        let ghost done = sections_lines(all.take(k as int));
        let ghost these = crate::render::section_lines(section@);
        let ghost notes = crate::render::note_lines(section@.notes);
        let mut heading = to_chars("### ");
        let name = to_chars(section.name.as_str());
        push_all(&mut heading, &name);
        push_all(&mut out, &heading);
        out.push('\n');
        proof {
            lemma_terminated_push(done, heading@);
            assert(done.push(heading@) =~= done + these.take(1));
        }
        let mut n: usize = 0;
        while n < section.notes.len()
            invariant
                n <= section.notes.len(),
                these == crate::render::section_lines(section@),
                out@ == terminated(done + these.take(n + 1)),
            decreases section.notes.len() - n,
        {
            let mut line = to_chars("- ");
            let note = to_chars(section.notes[n].as_str());
            push_all(&mut line, &note);
            push_all(&mut out, &line);
            out.push('\n');
            proof {
                lemma_terminated_push(done + these.take(n + 1), line@);
                assert(section@.notes[n as int] == section.notes@[n as int]@);
                assert(these[n + 1] == line@);
                assert((done + these.take(n + 1)).push(line@) =~= done + these.take(n + 2));
            }
            n += 1;
        }
        out.push('\n');
        proof {
            lemma_terminated_push(done + these.take(n + 1), Seq::<char>::empty());
            assert(these[n + 1] == Seq::<char>::empty());
            assert((done + these.take(n + 1)).push(Seq::<char>::empty()) =~= done + these);
            assert(all.take(k + 1).drop_last() == all.take(k as int));
            assert(all.take(k + 1).last() == section@);
            assert(out@ =~= terminated(done + these));
        }
        k += 1;
    }
    assert(all.take(k as int) == all);
    if out.len() == 0 {
        out = to_chars("### Other\n- No user-facing changes detected\n");
    }
    let mut text = trimmed_end(&out);
    text.push('\n');
    from_chars(&text)
}

/// Unfolds `terminated` over one more line.
pub proof fn lemma_terminated_push(lines: Seq<Seq<char>>, line: Seq<char>)
    ensures
        terminated(lines.push(line)) == terminated(lines) + line + seq!['\n'],
{
    assert(lines.push(line).drop_last() == lines);
}

/// The greatest version among the releases, the last one of several that
/// are equally great; `None` if there is no release.
pub open spec fn greatest(rs: Seq<ReleaseView>) -> Option<VersionView>
    decreases rs.len(),
{
    if rs.len() == 0 {
        None
    } else {
        match greatest(rs.drop_last()) {
            None => Some(rs.last().version),
            Some(best) => if version_order(rs.last().version, best) >= 0 {
                Some(rs.last().version)
            } else {
                Some(best)
            },
        }
    }
}

/// The version from which a bump starts: the greatest in the changelog, or
/// 0.0.0 in an empty one.
pub open spec fn bump_base(rs: Seq<ReleaseView>) -> VersionView {
    match greatest(rs) {
        Some(v) => v,
        None => VersionView {
            major: 0,
            minor: 0,
            patch: 0,
            pre: Seq::empty(),
            build: Seq::empty(),
        },
    }
}

/// The version from which a bump starts.
pub fn base_version(document: &ChangelogDocument) -> (r: Version)
    ensures
        r@ == bump_base(document@.releases),
{
    let ghost rs = document@.releases;
    let mut best: Option<Version> = None;
    let mut i: usize = 0;
    proof {
        assert(rs.take(0) =~= Seq::<ReleaseView>::empty());
    }
    while i < document.releases.len()
        invariant
            i <= document.releases.len(),
            rs == document@.releases,
            greatest(rs.take(i as int)) == (match best {
                Some(v) => Some(v@),
                None => None,
            }),
        decreases document.releases.len() - i,
    {
        proof {
            assert(rs.take(i + 1).drop_last() == rs.take(i as int));
            assert(rs.take(i + 1).last() == document.releases@[i as int]@);
        }
        let candidate = &document.releases[i].version;
        let better = match &best {
            Some(b) => candidate.compare(b) >= 0,
            None => true,
        };
        if better {
            best = Some(candidate.clone());
        }
        i += 1;
    }
    assert(rs.take(i as int) == rs);
    match best {
        Some(v) => v,
        None => Version::new(0, 0, 0),
    }
}

/// The version of the release to make: the one that is given, or the bump
/// of the greatest version in the changelog. Exactly one of the two must be
/// asked for.
pub fn next_version(document: &ChangelogDocument, version: Option<&str>, bump: Option<&str>) -> (r:
    Result<Version, ChangelogError>)
    requires
        version is None && bump is Some ==> can_bump(bump_base(document@.releases), bump->0@),
    ensures
        match (version, bump) {
            (Some(raw), None) => match version_of_text(raw@) {
                Some(v) => r matches Ok(x) && x@ == v,
                None => r matches Err(ChangelogError::VersionParseError(m)) && m@ == raw@,
            },
            (None, Some(b)) => match bumped(bump_base(document@.releases), b@) {
                Some(v) => r matches Ok(x) && x@ == v,
                None => r matches Err(ChangelogError::InvalidArguments(_)),
            },
            _ => r matches Err(ChangelogError::InvalidArguments(m)) && m@
                == "use exactly one of --version or --bump"@,
        },
{
    match (version, bump) {
        (Some(raw), None) => match Version::parse(raw) {
            Some(v) => Ok(v),
            None => Err(ChangelogError::VersionParseError(raw.to_owned())),
        },
        (None, Some(b)) => bump_version(base_version(document), b),
        _ => Err(
            ChangelogError::InvalidArguments("use exactly one of --version or --bump".to_owned()),
        ),
    }
}

/// The release that is made of commits: dated, with the heading style that
/// `header` names and the notes of the commits under the default sections.
pub open spec fn made_release(
    version: VersionView,
    date: Seq<char>,
    header: Seq<char>,
    commits: Seq<Seq<char>>,
) -> ReleaseView {
    ReleaseView {
        version,
        date: Some(date),
        header: header_of_name(header),
        sections: dedupe_sections(grouped(commits, Map::empty())),
    }
}

/// Makes a release of the commits, puts it into the changelog, validates
/// the changelog and returns its text. A release of a version that is
/// already there is replaced only with `override_existing`.
pub fn apply_release(
    document: &mut ChangelogDocument,
    version: Version,
    date: String,
    header: &str,
    commits: &[Commit],
    override_existing: bool,
) -> (r: Result<String, ChangelogError>)
    ensures
        final(document)@.title == old(document)@.title,
        !override_existing && index_of_version(old(document)@.releases, version@) < old(
            document,
        )@.releases.len() ==> final(document)@ == old(document)@ && (r matches Err(
            ChangelogError::InvalidArguments(m),
        ) && m@ == exists_message(version@)),
        override_existing || index_of_version(old(document)@.releases, version@) >= old(
            document,
        )@.releases.len() ==> final(document)@.releases == sort_descending(
            with_release(
                old(document)@.releases,
                made_release(version@, date@, header@, messages(commits@)),
            ),
        ),
        r matches Ok(text) ==> validation(final(document)@, false) is Ok && text@ == markdown(
            final(document)@,
        ),
        (override_existing || index_of_version(old(document)@.releases, version@) >= old(
            document,
        )@.releases.len()) && validation(final(document)@, false) is Ok
            && final(document)@.releases.len() + 2 <= usize::MAX ==> r is Ok,
        r matches Err(e) ==> e is InvalidArguments || e is Other,
        r matches Err(e) && e is Other ==> final(document)@.releases.len() + 2 > usize::MAX,
{
    let mapping = TypeMap::new();
    let mut release = Release::dated(version, Some(date));
    release.header = parse_header_format(header);
    release.sections = notes_from_commits(commits, &mapping);
    match document.upsert_release(release, override_existing) {
        Ok(()) => {},
        Err(message) => {
            return Err(ChangelogError::InvalidArguments(message));
        },
    }
    if document.releases.len() > usize::MAX - 2 {
        return Err(too_large());
    }
    match document.validate(false) {
        Ok(()) => {},
        Err(issue) => {
            return Err(ChangelogError::InvalidArguments(issue.message()));
        },
    }
    Ok(document.to_markdown())
}

/// The releases of the given version.
pub open spec fn of_version(rs: Seq<ReleaseView>, v: VersionView) -> Seq<ReleaseView>
    decreases rs.len(),
{
    if rs.len() == 0 {
        rs
    } else if rs.last().version == v {
        of_version(rs.drop_last(), v).push(rs.last())
    } else {
        of_version(rs.drop_last(), v)
    }
}

/// The releases whose version is neither less than `low` nor greater than
/// `high`.
pub open spec fn in_range(rs: Seq<ReleaseView>, low: VersionView, high: VersionView) -> Seq<
    ReleaseView,
>
    decreases rs.len(),
{
    if rs.len() == 0 {
        rs
    } else if version_order(rs.last().version, low) >= 0 && version_order(rs.last().version, high)
        <= 0 {
        in_range(rs.drop_last(), low, high).push(rs.last())
    } else {
        in_range(rs.drop_last(), low, high)
    }
}

/// What a selection asks for.
pub enum Selection {
    /// All releases.
    All,
    /// The releases of one version.
    Exact(VersionView),
    /// The releases between two versions, both included.
    Between(VersionView, VersionView),
    /// A text that should have been a version.
    BadVersion(Seq<char>),
    /// A range that is not two versions joined by two dots.
    BadRange,
}

/// Reads what is asked for: a version if one is given, else a range
/// `a..b` if one is given, else everything. The two ends of a range may
/// come in either order.
pub open spec fn selection(version: Option<Seq<char>>, range: Option<Seq<char>>) -> Selection {
    match version {
        Some(raw) => match version_of_text(raw) {
            Some(v) => Selection::Exact(v),
            None => Selection::BadVersion(raw),
        },
        None => match range {
            None => Selection::All,
            Some(text) => {
                let at = find(text, ".."@);
                if at >= text.len() {
                    Selection::BadRange
                } else {
                    let left = text.take(at);
                    let right = text.skip(at + ".."@.len());
                    match version_of_text(left) {
                        None => Selection::BadVersion(left),
                        Some(a) => match version_of_text(right) {
                            None => Selection::BadVersion(right),
                            Some(b) => if version_order(a, b) <= 0 {
                                Selection::Between(a, b)
                            } else {
                                Selection::Between(b, a)
                            },
                        },
                    }
                }
            },
        },
    }
}

/// The releases that a selection picks, in the order in which they stand.
pub open spec fn picked(rs: Seq<ReleaseView>, s: Selection) -> Seq<ReleaseView> {
    match s {
        Selection::All => rs,
        Selection::Exact(v) => of_version(rs, v),
        Selection::Between(low, high) => in_range(rs, low, high),
        _ => Seq::empty(),
    }
}

/// What is asked for, as the versions that were read.
pub enum Request {
    All,
    Exact(Version),
    Between(Version, Version),
}

impl View for Request {
    type V = Selection;

    open spec fn view(&self) -> Selection {
        match self {
            Request::All => Selection::All,
            Request::Exact(v) => Selection::Exact(v@),
            Request::Between(a, b) => Selection::Between(a@, b@),
        }
    }
}

/// Reads what is asked for.
pub fn read_request(version: Option<&str>, range: Option<&str>) -> (r: Result<
    Request,
    ChangelogError,
>)
    ensures
        match selection(
            match version {
                Some(s) => Some(s@),
                None => None,
            },
            match range {
                Some(s) => Some(s@),
                None => None,
            },
        ) {
            Selection::BadVersion(raw) => r matches Err(ChangelogError::VersionParseError(m))
                && m@ == raw,
            Selection::BadRange => r matches Err(ChangelogError::InvalidArguments(m)) && m@
                == "--range must use '<a>..<b>' format"@,
            s => r matches Ok(q) && q@ == s,
        },
{
    match version {
        Some(raw) => {
            return match Version::parse(raw) {
                Some(v) => Ok(Request::Exact(v)),
                None => Err(ChangelogError::VersionParseError(raw.to_owned())),
            };
        },
        None => {},
    }
    let text = match range {
        Some(text) => to_chars(text),
        None => {
            return Ok(Request::All);
        },
    };
    let dots = to_chars("..");
    let at = find_in(&text, &dots);
    if at >= text.len() {
        return Err(
            ChangelogError::InvalidArguments("--range must use '<a>..<b>' format".to_owned()),
        );
    }
    proof {
        lemma_find_bounds(text@, ".."@);
    }
    let left = slice_of(&text, 0, at);
    assert(left@ == text@.take(at as int));
    let right = slice_of(&text, at + dots.len(), text.len());
    assert(right@ == text@.skip(at + ".."@.len()));
    let left = from_chars(&left);
    let right = from_chars(&right);
    let a = match Version::parse(left.as_str()) {
        Some(v) => v,
        None => {
            return Err(ChangelogError::VersionParseError(left));
        },
    };
    let b = match Version::parse(right.as_str()) {
        Some(v) => v,
        None => {
            return Err(ChangelogError::VersionParseError(right));
        },
    };
    if a.compare(&b) <= 0 {
        Ok(Request::Between(a, b))
    } else {
        Ok(Request::Between(b, a))
    }
}

/// Whether a release is picked.
fn picks(request: &Request, release: &Release) -> (r: bool)
    ensures
        r == match request@ {
            Selection::All => true,
            Selection::Exact(v) => release@.version == v,
            Selection::Between(low, high) => version_order(release@.version, low) >= 0
                && version_order(release@.version, high) <= 0,
            _ => false,
        },
{
    match request {
        Request::All => true,
        Request::Exact(v) => release.version.same(v),
        Request::Between(low, high) => release.version.compare(low) >= 0
            && release.version.compare(high) <= 0,
    }
}

/// The releases of the changelog that are asked for, from newest to
/// oldest.
pub fn select_releases(document: &ChangelogDocument, version: Option<&str>, range: Option<&str>) -> (r:
    Result<Vec<Release>, ChangelogError>)
    ensures
        match selection(
            match version {
                Some(s) => Some(s@),
                None => None,
            },
            match range {
                Some(s) => Some(s@),
                None => None,
            },
        ) {
            Selection::BadVersion(raw) => r matches Err(ChangelogError::VersionParseError(m))
                && m@ == raw,
            Selection::BadRange => r matches Err(ChangelogError::InvalidArguments(m)) && m@
                == "--range must use '<a>..<b>' format"@,
            s => if picked(document@.releases, s).len() == 0 {
                r matches Err(ChangelogError::InvalidArguments(m)) && m@
                    == "no matching releases found"@
            } else {
                r matches Ok(list) && release_views(list@) == sort_descending(
                    picked(document@.releases, s),
                )
            },
        },
{
    let request = match read_request(version, range) {
        Ok(q) => q,
        Err(e) => {
            return Err(e);
        },
    };
    let ghost rs = document@.releases;
    let ghost s = request@;
    let mut chosen: Vec<Release> = Vec::new();
    let mut i: usize = 0;
    proof {
        assert(rs.take(0) =~= Seq::<ReleaseView>::empty());
        assert(release_views(chosen@) =~= Seq::<ReleaseView>::empty());
    }
    while i < document.releases.len()
        invariant
            i <= document.releases.len(),
            rs == document@.releases,
            s == request@,
            release_views(chosen@) == picked(rs.take(i as int), s),
        decreases document.releases.len() - i,
    {
        proof {
            assert(rs.take(i + 1).drop_last() == rs.take(i as int));
            assert(rs.take(i + 1).last() == document.releases@[i as int]@);
        }
        let release = &document.releases[i];
        if picks(&request, release) {
            let copy = release.clone();
            assert(release_views(chosen@.push(copy)) =~= release_views(chosen@).push(release@));
            chosen.push(copy);
        }
        proof {
            if s is All {
                assert(rs.take(i + 1) =~= rs.take(i as int).push(release@));
            }
        }
        i += 1;
    }
    assert(rs.take(i as int) == rs);
    if chosen.len() == 0 {
        return Err(ChangelogError::InvalidArguments("no matching releases found".to_owned()));
    }
    let mut sorted = ChangelogDocument { title: String::new(), releases: chosen };
    sorted.sort_semver_desc();
    Ok(sorted.releases)
}

/// The text that shows the releases that are asked for: as they are under
/// the title of the changelog, or converged into one.
pub fn show_releases(
    document: &ChangelogDocument,
    version: Option<&str>,
    range: Option<&str>,
    converge: bool,
) -> (r: Result<String, ChangelogError>)
    ensures
        match selection(
            match version {
                Some(s) => Some(s@),
                None => None,
            },
            match range {
                Some(s) => Some(s@),
                None => None,
            },
        ) {
            Selection::BadVersion(raw) => r matches Err(ChangelogError::VersionParseError(m))
                && m@ == raw,
            Selection::BadRange => r matches Err(ChangelogError::InvalidArguments(m)) && m@
                == "--range must use '<a>..<b>' format"@,
            s => if picked(document@.releases, s).len() == 0 {
                r matches Err(ChangelogError::InvalidArguments(m)) && m@
                    == "no matching releases found"@
            } else {
                r matches Ok(text) && text@ == markdown(
                    if converge {
                        converged(sort_descending(picked(document@.releases, s)))
                    } else {
                        DocumentView {
                            title: document@.title,
                            releases: sort_descending(picked(document@.releases, s)),
                        }
                    },
                )
            },
        },
{
    let selected = match select_releases(document, version, range) {
        Ok(list) => list,
        Err(e) => {
            return Err(e);
        },
    };
    if converge {
        Ok(converge_releases(selected.as_slice()).to_markdown())
    } else {
        let shown = ChangelogDocument { title: document.title.clone(), releases: selected };
        Ok(shown.to_markdown())
    }
}

/// Whether releases may be removed: only with `yes`.
pub fn confirm_removal(yes: bool) -> (r: Result<(), ChangelogError>)
    ensures
        r is Ok == yes,
        r matches Err(e) ==> e matches ChangelogError::InvalidArguments(m) && m@
            == "remove requires --yes to apply file changes"@,
{
    if yes {
        Ok(())
    } else {
        Err(
            ChangelogError::InvalidArguments(
                "remove requires --yes to apply file changes".to_owned(),
            ),
        )
    }
}

/// Removes the releases of a version from the changelog and returns its
/// text.
pub fn remove_release(document: &mut ChangelogDocument, version: &str) -> (r: Result<
    String,
    ChangelogError,
>)
    ensures
        final(document)@.title == old(document)@.title,
        match version_of_text(version@) {
            None => final(document)@ == old(document)@ && (r matches Err(
                ChangelogError::VersionParseError(m),
            ) && m@ == version@),
            Some(v) => final(document)@.releases == without_version(old(document)@.releases, v)
                && if final(document)@.releases.len() == old(document)@.releases.len() {
                r matches Err(ChangelogError::InvalidArguments(m)) && m@ == "release "@ + v.text()
                    + " was not found"@
            } else {
                r matches Ok(text) && text@ == markdown(final(document)@)
            },
        },
{
    let target = match Version::parse(version) {
        Some(v) => v,
        None => {
            return Err(ChangelogError::VersionParseError(version.to_owned()));
        },
    };
    if !document.remove_version(&target) {
        let head = joined("release ", target.to_string().as_str());
        return Err(ChangelogError::InvalidArguments(joined(head.as_str(), " was not found")));
    }
    Ok(document.to_markdown())
}

/// The format of a file that maps commit kinds to sections.
#[derive(Debug, PartialEq, Eq)]
pub enum MappingFormat {
    Json,
    Toml,
}

/// The format that the extension of a mapping file names.
pub fn mapping_format(extension: &str) -> (r: Result<MappingFormat, ChangelogError>)
    ensures
        extension@ == "json"@ ==> r == Ok::<MappingFormat, ChangelogError>(MappingFormat::Json),
        extension@ != "json"@ && extension@ == "toml"@ ==> r == Ok::<
            MappingFormat,
            ChangelogError,
        >(MappingFormat::Toml),
        extension@ != "json"@ && extension@ != "toml"@ ==> (r matches Err(
            ChangelogError::InvalidArguments(m),
        ) && m@ == "unsupported mapping extension '"@ + extension@ + "'; use .json or .toml"@),
{
    if same_text(extension, "json") {
        Ok(MappingFormat::Json)
    } else if same_text(extension, "toml") {
        Ok(MappingFormat::Toml)
    } else {
        let head = joined("unsupported mapping extension '", extension);
        Err(ChangelogError::InvalidArguments(joined(head.as_str(), "'; use .json or .toml")))
    }
}

/// The members of a workspace, read from the text of its `Cargo.toml`:
/// two fixed names if the text declares a workspace, else none.
pub fn workspace_members(cargo: &str) -> (r: Vec<String>)
    ensures
        crate::text::contains(cargo@, "[workspace]"@) ==> r.len() == 2 && r@[0]@ == "crate-a"@
            && r@[1]@ == "crate-b"@,
        !crate::text::contains(cargo@, "[workspace]"@) ==> r.len() == 0,
{
    let text = to_chars(cargo);
    let mut members: Vec<String> = Vec::new();
    if crate::text::contains_text(&text, "[workspace]") {
        members.push("crate-a".to_owned());
        members.push("crate-b".to_owned());
    }
    members
}

} // verus!
