//! The parser of the changelog dialect of markdown: a state machine that
//! is fed the lines of a text one by one.
//!
//! A changelog is a title line `# ...`, then releases. A release is a
//! heading line `## ...` followed by section headings `### ...` and notes
//! `- ...`; a note belongs to the section heading above it. Lines are
//! trimmed before they are read, and blank lines mean nothing.

use crate::document::{ChangelogDocument, DocumentView, HeaderFormat, HeaderView, IssueView};
use crate::document::{ParseIssue, Release, ReleaseView, option_view, release_views};
use crate::sections::{SectionMap, with_heading, with_note};
use crate::text::{find, find_in, from_chars, has_prefix, index_of, lines_of, matches_at};
use crate::text::{lemma_find_bounds, lemma_index_of_bounds};
use crate::text::{position_of, slice_of, split_lines, strip_prefix, to_chars, trim, trimmed};
use crate::text::views;
use crate::version::{Version, version_of_text};
use vstd::prelude::*;

verus! {

/// What the parser has read so far.
pub struct ParseState {
    /// The title, once its line has been read.
    pub title: Option<Seq<char>>,
    /// The releases that are complete.
    pub done: Seq<ReleaseView>,
    /// The release whose sections are being read.
    pub open: Option<ReleaseView>,
    /// The section to which notes are added.
    pub section: Option<Seq<char>>,
}

pub open spec fn initial_state() -> ParseState {
    ParseState { title: None, done: Seq::empty(), open: None, section: None }
}

pub open spec fn empty_file_issue() -> IssueView {
    IssueView {
        line: 1,
        expected: "a '# Changelog' title"@,
        found: "empty file"@,
        fix: "create a file starting with '# Changelog'"@,
    }
}

pub open spec fn title_issue(line: Seq<char>, number: nat) -> IssueView {
    IssueView {
        line: number,
        expected: "a level-1 heading like '# Changelog'"@,
        found: line,
        fix: "replace the first non-empty line with '# Changelog'"@,
    }
}

pub open spec fn release_heading_issue(line: Seq<char>, number: nat) -> IssueView {
    IssueView {
        line: number,
        expected: "a release heading '## [x.y.z] - YYYY-MM-DD'"@,
        found: line,
        fix: "add a release heading before sections and notes"@,
    }
}

pub open spec fn section_title_issue(line: Seq<char>, number: nat) -> IssueView {
    IssueView {
        line: number,
        expected: "a section title after '###'"@,
        found: line,
        fix: "use section headings like '### Added' or '### Fixed'"@,
    }
}

pub open spec fn unexpected_line_issue(line: Seq<char>, number: nat) -> IssueView {
    IssueView {
        line: number,
        expected: "a bullet note '- ...' or a section heading '### ...'"@,
        found: line,
        fix: "prefix notes with '- ' and group them under '### <Section>'"@,
    }
}

pub open spec fn orphan_note_issue(line: Seq<char>, number: nat) -> IssueView {
    IssueView {
        line: number,
        expected: "a section heading before notes"@,
        found: line,
        fix: "insert a heading like '### Added' above this note"@,
    }
}

pub open spec fn empty_note_issue(line: Seq<char>, number: nat) -> IssueView {
    IssueView {
        line: number,
        expected: "a non-empty note"@,
        found: line,
        fix: "write text after '- '"@,
    }
}

pub open spec fn bracket_issue(rest: Seq<char>, number: nat) -> IssueView {
    IssueView {
        line: number,
        expected: "closing ']' in release heading"@,
        found: rest,
        fix: "use heading format like '## [1.2.3] - 2026-01-01'"@,
    }
}

pub open spec fn version_issue(raw: Seq<char>, number: nat) -> IssueView {
    IssueView {
        line: number,
        expected: "a semantic version (x.y.z)"@,
        found: raw,
        fix: "replace with a valid version like 1.4.2"@,
    }
}

/// A date as it is kept: trimmed, and absent when nothing is left.
pub open spec fn date_of(s: Seq<char>) -> Option<Seq<char>> {
    if trim(s).len() > 0 {
        Some(trim(s))
    } else {
        None
    }
}

/// The version text, the date and the heading format that a release
/// heading holds, or the issue of a bracket that is not closed. `rest` is
/// the trimmed text after `## `.
///
/// Behind a bracket the version runs up to the first `]`, and a date
/// follows if the text after it, trimmed, starts with a dash. Without a
/// bracket the version runs up to the first ` - ` and the date is what
/// follows it.
pub open spec fn heading_parts(rest: Seq<char>, number: nat) -> Result<
    (Seq<char>, Option<Seq<char>>, HeaderView),
    IssueView,
> {
    if rest.len() > 0 && rest[0] == '[' {
        let close = index_of(rest, ']');
        if close >= rest.len() {
            Err(bracket_issue(rest, number))
        } else {
            let trailing = trim(rest.skip(close + 1));
            let date = if trailing.len() > 0 && trailing[0] == '-' {
                date_of(trailing.skip(1))
            } else {
                None
            };
            Ok(
                (
                    rest.subrange(1, close),
                    date,
                    if date is Some {
                        HeaderView::Default
                    } else {
                        HeaderView::VersionOnly
                    },
                ),
            )
        }
    } else {
        let at = find(rest, " - "@);
        if at < rest.len() {
            let date = date_of(rest.skip(at + " - "@.len()));
            Ok(
                (
                    trim(rest.take(at)),
                    date,
                    if date is Some {
                        HeaderView::Plain
                    } else {
                        HeaderView::Custom("## {version}"@)
                    },
                ),
            )
        } else {
            Ok((trim(rest), None, HeaderView::Custom("## {version}"@)))
        }
    }
}

/// The release that a heading line opens, or its issue. `line` is the
/// trimmed line, which starts with `## `.
pub open spec fn heading(line: Seq<char>, number: nat) -> Result<ReleaseView, IssueView> {
    match heading_parts(trim(strip_prefix(line, "## "@)), number) {
        Err(e) => Err(e),
        Ok((raw, date, header)) => match version_of_text(raw) {
            None => Err(version_issue(raw, number)),
            Some(version) => Ok(ReleaseView { version, date, header, sections: Seq::empty() }),
        },
    }
}

/// The complete releases once the open one, if any, is closed.
pub open spec fn closed_releases(s: ParseState) -> Seq<ReleaseView> {
    match s.open {
        Some(r) => s.done.push(r),
        None => s.done,
    }
}

/// The state after one more line, or the issue of that line. `number` is
/// the number of the line, counted from 1.
pub open spec fn step(s: ParseState, raw: Seq<char>, number: nat) -> Result<ParseState, IssueView> {
    let line = trim(raw);
    if line.len() == 0 {
        Ok(s)
    } else if s.title is None {
        if has_prefix(line, "# "@) {
            Ok(ParseState { title: Some(trim(strip_prefix(line, "# "@))), ..s })
        } else {
            Err(title_issue(line, number))
        }
    } else if has_prefix(line, "## "@) {
        match heading(line, number) {
            Err(e) => Err(e),
            Ok(r) => Ok(
                ParseState {
                    title: s.title,
                    done: closed_releases(s),
                    open: Some(r),
                    section: None,
                },
            ),
        }
    } else if s.open is None {
        Err(release_heading_issue(line, number))
    } else if has_prefix(line, "### "@) {
        let name = trim(strip_prefix(line, "### "@));
        if name.len() == 0 {
            Err(section_title_issue(line, number))
        } else {
            Ok(
                ParseState {
                    open: Some(
                        ReleaseView { sections: with_heading(s.open->0.sections, name), ..s.open->0 },
                    ),
                    section: Some(name),
                    ..s
                },
            )
        }
    } else if !has_prefix(line, "- "@) {
        Err(unexpected_line_issue(line, number))
    } else if s.section is None {
        Err(orphan_note_issue(line, number))
    } else {
        let note = trim(strip_prefix(line, "- "@));
        if note.len() == 0 {
            Err(empty_note_issue(line, number))
        } else {
            Ok(
                ParseState {
                    open: Some(
                        ReleaseView {
                            sections: with_note(s.open->0.sections, s.section->0, note),
                            ..s.open->0
                        },
                    ),
                    ..s
                },
            )
        }
    }
}

/// The state after the lines from index `from` on, or the first issue.
pub open spec fn run(s: ParseState, lines: Seq<Seq<char>>, from: int) -> Result<
    ParseState,
    IssueView,
>
    decreases lines.len() - from,
{
    if from < 0 || from >= lines.len() {
        Ok(s)
    } else {
        match step(s, lines[from], (from + 1) as nat) {
            Err(e) => Err(e),
            Ok(next) => run(next, lines, from + 1),
        }
    }
}

/// The changelog that has been read, or the issue of a text without title.
pub open spec fn finish(s: ParseState) -> Result<DocumentView, IssueView> {
    match s.title {
        None => Err(empty_file_issue()),
        Some(title) => Ok(DocumentView { title, releases: closed_releases(s) }),
    }
}

/// The changelog that the lines spell, or their first issue.
pub open spec fn parse_lines(lines: Seq<Seq<char>>) -> Result<DocumentView, IssueView> {
    match run(initial_state(), lines, 0) {
        Err(e) => Err(e),
        Ok(s) => finish(s),
    }
}

/// The changelog that a text spells, or its first issue.
pub open spec fn parse_text(text: Seq<char>) -> Result<DocumentView, IssueView> {
    parse_lines(split_lines(text))
}

/// The text after `prefix`, if `line` starts with it.
fn strip(line: &Vec<char>, prefix: &str) -> (r: Option<Vec<char>>)
    ensures
        r is Some == has_prefix(line@, prefix@),
        r matches Some(t) ==> t@ == strip_prefix(line@, prefix@),
{
    let p = to_chars(prefix);
    assert(line@.skip(0) == line@);
    if matches_at(line, &p, 0) {
        let t = slice_of(line, p.len(), line.len());
        assert(t@ == line@.skip(p.len() as int));
        Some(t)
    } else {
        None
    }
}

fn issue_at(number: usize, expected: &str, found: &Vec<char>, fix: &str) -> (r: ParseIssue)
    ensures
        r@ == (IssueView { line: number as nat, expected: expected@, found: found@, fix: fix@ }),
{
    ParseIssue {
        line: number,
        expected: expected.to_owned(),
        found: from_chars(found),
        fix: fix.to_owned(),
    }
}

fn date_from(s: &Vec<char>) -> (r: Option<String>)
    ensures
        option_view(r) == date_of(s@),
{
    let d = trimmed(s);
    if d.len() > 0 {
        Some(from_chars(&d))
    } else {
        None
    }
}

/// Reads a release heading. `line` is the trimmed line, `number` its
/// number.
pub fn parse_release_heading(line: &Vec<char>, number: usize) -> (r: Result<Release, ParseIssue>)
    ensures
        r matches Ok(release) ==> heading(line@, number as nat) == Ok::<ReleaseView, IssueView>(
            release@,
        ),
        r matches Err(e) ==> heading(line@, number as nat) == Err::<ReleaseView, IssueView>(e@),
{
    let stripped = match strip(line, "## ") {
        Some(t) => t,
        None => slice_of(line, 0, line.len()),
    };
    assert(stripped@ == strip_prefix(line@, "## "@)) by {
        assert(line@.subrange(0, line@.len() as int) == line@);
    }
    let rest = trimmed(&stripped);
    let raw: Vec<char>;
    let date: Option<String>;
    let header: HeaderFormat;
    if rest.len() > 0 && rest[0] == '[' {
        let close = position_of(&rest, ']');
        if close >= rest.len() {
            return Err(
                issue_at(
                    number,
                    "closing ']' in release heading",
                    &rest,
                    "use heading format like '## [1.2.3] - 2026-01-01'",
                ),
            );
        }
        proof {
            lemma_index_of_bounds(rest@, ']');
        }
        raw = slice_of(&rest, 1, close);
        let after = slice_of(&rest, close + 1, rest.len());
        assert(after@ == rest@.skip(close + 1));
        let trailing = trimmed(&after);
        if trailing.len() > 0 && trailing[0] == '-' {
            let tail = slice_of(&trailing, 1, trailing.len());
            assert(tail@ == trailing@.skip(1));
            date = date_from(&tail);
        } else {
            date = None;
        }
        header = if date.is_some() {
            HeaderFormat::Default
        } else {
            HeaderFormat::VersionOnly
        };
    } else {
        let separator = to_chars(" - ");
        let at = find_in(&rest, &separator);
        if at < rest.len() {
            proof {
                lemma_find_bounds(rest@, " - "@);
            }
            let left = slice_of(&rest, 0, at);
            assert(left@ == rest@.take(at as int));
            raw = trimmed(&left);
            let right = slice_of(&rest, at + separator.len(), rest.len());
            assert(right@ == rest@.skip(at + " - "@.len()));
            date = date_from(&right);
            header = if date.is_some() {
                HeaderFormat::Plain
            } else {
                HeaderFormat::Custom("## {version}".to_owned())
            };
        } else {
            raw = trimmed(&rest);
            date = None;
            header = HeaderFormat::Custom("## {version}".to_owned());
        }
    }
    let text = from_chars(&raw);
    match Version::parse(text.as_str()) {
        Some(version) => Ok(Release { version, date, header, sections: SectionMap::new() }),
        None => Err(
            issue_at(
                number,
                "a semantic version (x.y.z)",
                &raw,
                "replace with a valid version like 1.4.2",
            ),
        ),
    }
}

/// The parser: what has been read of a changelog so far.
pub struct Parser {
    title: Option<String>,
    done: Vec<Release>,
    open: Option<Release>,
    section: Option<String>,
}

impl View for Parser {
    type V = ParseState;

    closed spec fn view(&self) -> ParseState {
        ParseState {
            title: option_view(self.title),
            done: release_views(self.done@),
            open: match self.open {
                Some(r) => Some(r@),
                None => None,
            },
            section: option_view(self.section),
        }
    }
}

impl Parser {
    /// A parser that has read nothing.
    pub fn new() -> (p: Parser)
        ensures
            p@ == initial_state(),
    {
        let p = Parser { title: None, done: Vec::new(), open: None, section: None };
        assert(release_views(p.done@) =~= Seq::<ReleaseView>::empty());
        p
    }

    /// Reads one more line. `number` is the number of the line, counted
    /// from 1.
    pub fn feed(self, raw: &Vec<char>, number: usize) -> (r: Result<Parser, ParseIssue>)
        ensures
            r matches Ok(p) ==> step(self@, raw@, number as nat) == Ok::<ParseState, IssueView>(p@),
            r matches Err(e) ==> step(self@, raw@, number as nat) == Err::<ParseState, IssueView>(
                e@,
            ),
    {
        let line = trimmed(raw);
        if line.len() == 0 {
            return Ok(self);
        }
        let Parser { title, done, open, section } = self;
        let ghost before = self@;
        if title.is_none() {
            return match strip(&line, "# ") {
                Some(rest) => {
                    let name = from_chars(&trimmed(&rest));
                    Ok(Parser { title: Some(name), done, open, section })
                },
                None => Err(
                    issue_at(
                        number,
                        "a level-1 heading like '# Changelog'",
                        &line,
                        "replace the first non-empty line with '# Changelog'",
                    ),
                ),
            };
        }
        if strip(&line, "## ").is_some() {
            return match parse_release_heading(&line, number) {
                Err(e) => Err(e),
                Ok(release) => {
                    let mut done = done;
                    match open {
                        Some(r) => {
                            assert(release_views(done@.push(r)) =~= release_views(done@).push(
                                r@,
                            ));
                            done.push(r);
                        },
                        None => {},
                    }
                    Ok(Parser { title, done, open: Some(release), section: None })
                },
            };
        }
        let mut release = match open {
            Some(r) => r,
            None => {
                return Err(
                    issue_at(
                        number,
                        "a release heading '## [x.y.z] - YYYY-MM-DD'",
                        &line,
                        "add a release heading before sections and notes",
                    ),
                );
            },
        };
        match strip(&line, "### ") {
            Some(rest) => {
                let name = trimmed(&rest);
                if name.len() == 0 {
                    return Err(
                        issue_at(
                            number,
                            "a section title after '###'",
                            &line,
                            "use section headings like '### Added' or '### Fixed'",
                        ),
                    );
                }
                release.sections.ensure(from_chars(&name));
                return Ok(
                    Parser { title, done, open: Some(release), section: Some(from_chars(&name)) },
                );
            },
            None => {},
        }
        let rest = match strip(&line, "- ") {
            Some(rest) => rest,
            None => {
                return Err(
                    issue_at(
                        number,
                        "a bullet note '- ...' or a section heading '### ...'",
                        &line,
                        "prefix notes with '- ' and group them under '### <Section>'",
                    ),
                );
            },
        };
        let current = match section {
            Some(name) => name,
            None => {
                return Err(
                    issue_at(
                        number,
                        "a section heading before notes",
                        &line,
                        "insert a heading like '### Added' above this note",
                    ),
                );
            },
        };
        let note = trimmed(&rest);
        if note.len() == 0 {
            return Err(issue_at(number, "a non-empty note", &line, "write text after '- '"));
        }
        release.sections.add_note(current.clone(), from_chars(&note));
        Ok(Parser { title, done, open: Some(release), section: Some(current) })
    }

    /// The changelog that has been read.
    pub fn finish(self) -> (r: Result<ChangelogDocument, ParseIssue>)
        ensures
            r matches Ok(d) ==> finish(self@) == Ok::<DocumentView, IssueView>(d@),
            r matches Err(e) ==> finish(self@) == Err::<DocumentView, IssueView>(e@),
    {
        let Parser { title, done, open, section } = self;
        match title {
            None => Err(
                ParseIssue::new(
                    1,
                    "a '# Changelog' title",
                    "empty file",
                    "create a file starting with '# Changelog'",
                ),
            ),
            Some(title) => {
                let mut releases = done;
                match open {
                    Some(r) => {
                        assert(release_views(releases@.push(r)) =~= release_views(
                            releases@,
                        ).push(r@));
                        releases.push(r);
                    },
                    None => {},
                }
                Ok(ChangelogDocument { title, releases })
            },
        }
    }
}

impl ChangelogDocument {
    /// Reads a changelog from its text. The first defect ends the parse and
    /// is returned with the number of its line.
    pub fn parse(input: &str) -> (r: Result<ChangelogDocument, ParseIssue>)
        ensures
            r matches Ok(d) ==> parse_text(input@) == Ok::<DocumentView, IssueView>(d@),
            r matches Err(e) ==> parse_text(input@) == Err::<DocumentView, IssueView>(e@),
    {
        let chars = to_chars(input);
        let lines = lines_of(&chars);
        let mut parser = Parser::new();
        let mut i: usize = 0;
        while i < lines.len()
            invariant
                i <= lines.len(),
                views(lines@) == split_lines(input@),
                run(initial_state(), views(lines@), 0) == run(parser@, views(lines@), i as int),
            decreases lines.len() - i,
        {
            match parser.feed(&lines[i], i + 1) {
                Ok(next) => {
                    parser = next;
                },
                Err(e) => {
                    return Err(e);
                },
            }
            i += 1;
        }
        parser.finish()
    }
}

} // verus!
