//! The renderer: the canonical text of a changelog.

use crate::document::{ChangelogDocument, DocumentView, HeaderFormat, HeaderView, Release};
use crate::document::{ReleaseView, release_views};
use crate::sections::{SectionMap, SectionView};
use crate::text::{from_chars, is_whitespace, lemma_trim_end_shape, push_all, replace_all};
use crate::text::{replaced, to_chars, trim_end};
use crate::text::{trimmed_end, views};
use vstd::prelude::*;

verus! {

/// The heading line of a release, as its heading format writes it.
pub open spec fn header_line(r: ReleaseView) -> Seq<char> {
    let v = r.version.text();
    let d = match r.date {
        Some(d) => d,
        None => Seq::<char>::empty(),
    };
    match r.header {
        HeaderView::Default => if r.date is Some {
            "## ["@ + v + "] - "@ + d
        } else {
            "## ["@ + v + "]"@
        },
        HeaderView::Plain => if r.date is Some {
            "## "@ + v + " - "@ + d
        } else {
            "## "@ + v
        },
        HeaderView::VersionOnly => "## ["@ + v + "]"@,
        HeaderView::Custom(t) => replace_all(replace_all(t, "{version}"@, v), "{date}"@, d),
    }
}

/// One line for each note.
pub open spec fn note_lines(notes: Seq<Seq<char>>) -> Seq<Seq<char>> {
    Seq::new(notes.len(), |i: int| "- "@ + notes[i])
}

/// The lines of one section: its heading, its notes and an empty line.
pub open spec fn section_lines(s: SectionView) -> Seq<Seq<char>> {
    seq!["### "@ + s.name] + note_lines(s.notes) + seq![Seq::<char>::empty()]
}

/// The lines of the sections, one section after the other.
pub open spec fn sections_lines(ss: Seq<SectionView>) -> Seq<Seq<char>>
    decreases ss.len(),
{
    if ss.len() == 0 {
        Seq::empty()
    } else {
        sections_lines(ss.drop_last()) + section_lines(ss.last())
    }
}

/// The lines of one release: its heading, an empty line and its sections.
pub open spec fn release_lines(r: ReleaseView) -> Seq<Seq<char>> {
    seq![header_line(r), Seq::<char>::empty()] + sections_lines(r.sections)
}

/// The lines of the releases, in the order in which they stand.
pub open spec fn releases_lines(rs: Seq<ReleaseView>) -> Seq<Seq<char>>
    decreases rs.len(),
{
    if rs.len() == 0 {
        Seq::empty()
    } else {
        releases_lines(rs.drop_last()) + release_lines(rs.last())
    }
}

/// The lines of a changelog: the title, an empty line and the releases.
pub open spec fn document_lines(d: DocumentView) -> Seq<Seq<char>> {
    seq!["# "@ + d.title, Seq::<char>::empty()] + releases_lines(d.releases)
}

/// The text made of the lines, each followed by a line feed.
pub open spec fn terminated(lines: Seq<Seq<char>>) -> Seq<char>
    decreases lines.len(),
{
    if lines.len() == 0 {
        Seq::empty()
    } else {
        terminated(lines.drop_last()) + lines.last() + seq!['\n']
    }
}

/// The canonical text of a changelog: its lines, without whitespace at the
/// end and closed by one line feed.
pub open spec fn markdown(d: DocumentView) -> Seq<char> {
    trim_end(terminated(document_lines(d))) + seq!['\n']
}

/// The canonical text ends with exactly one line feed: its last character
/// is a line feed, and the one before it, if there is one, is no
/// whitespace.
pub proof fn lemma_markdown_ends_with_one_line_feed(d: DocumentView)
    ensures
        markdown(d).len() >= 1,
        markdown(d).last() == '\n',
        markdown(d).len() >= 2 ==> !is_whitespace(markdown(d)[markdown(d).len() - 2]),
{
    let body = trim_end(terminated(document_lines(d)));
    lemma_trim_end_shape(terminated(document_lines(d)));
    if body.len() > 0 {
        assert(markdown(d)[markdown(d).len() - 2] == body.last());
    }
}

/// `out` followed by the characters of `s`.
fn with_suffix(mut out: Vec<char>, s: &str) -> (r: Vec<char>)
    ensures
        r@ == out@ + s@,
{
    let tail = to_chars(s);
    push_all(&mut out, &tail);
    out
}

/// The heading line of a release.
pub fn render_release_header(release: &Release) -> (r: String)
    ensures
        r@ == header_line(release@),
{
    let version = release.version.to_string();
    let empty = String::new();
    let date: &String = match &release.date {
        Some(d) => d,
        None => &empty,
    };
    let dated = release.date.is_some();
    match &release.header {
        HeaderFormat::Default => {
            let out = with_suffix(to_chars("## ["), version.as_str());
            if dated {
                let out = with_suffix(out, "] - ");
                let out = with_suffix(out, date.as_str());
                from_chars(&out)
            } else {
                let out = with_suffix(out, "]");
                from_chars(&out)
            }
        },
        HeaderFormat::Plain => {
            let out = with_suffix(to_chars("## "), version.as_str());
            if dated {
                let out = with_suffix(out, " - ");
                let out = with_suffix(out, date.as_str());
                from_chars(&out)
            } else {
                from_chars(&out)
            }
        },
        HeaderFormat::VersionOnly => {
            let out = with_suffix(to_chars("## ["), version.as_str());
            let out = with_suffix(out, "]");
            from_chars(&out)
        },
        HeaderFormat::Custom(template) => {
            let text = to_chars(template.as_str());
            let first = replaced(&text, &to_chars("{version}"), &to_chars(version.as_str()));
            let second = replaced(&first, &to_chars("{date}"), &to_chars(date.as_str()));
            from_chars(&second)
        },
    }
}

/// Appends the lines of the sections.
fn push_sections(lines: &mut Vec<Vec<char>>, sections: &SectionMap)
    ensures
        views(final(lines)@) == views(old(lines)@) + sections_lines(sections@),
{
    let ghost before = views(lines@);
    let mut k: usize = 0;
    proof {
        assert(sections@.take(0) =~= Seq::<SectionView>::empty());
        assert(before + sections_lines(sections@.take(0)) =~= before);
    }
    while k < sections.len()
        invariant
            k <= sections@.len(),
            views(lines@) == before + sections_lines(sections@.take(k as int)),
        decreases sections@.len() - k,
    {
        let section = sections.section(k);
        let ghost start = views(lines@);
        let heading = with_suffix(to_chars("### "), section.name.as_str());
        proof {
            assert(views(lines@.push(heading)) =~= start + seq!["### "@ + section@.name]);
        }
        lines.push(heading);
        let ghost head = views(lines@);
        let mut n: usize = 0;
        proof {
            assert(head + note_lines(section@.notes).take(0) =~= head);
        }
        while n < section.notes.len()
            invariant
                n <= section.notes.len(),
                views(lines@) == head + note_lines(section@.notes).take(n as int),
            decreases section.notes.len() - n,
        {
            let note = with_suffix(to_chars("- "), section.notes[n].as_str());
            proof {
                assert(section@.notes[n as int] == section.notes@[n as int]@);
                assert(note_lines(section@.notes)[n as int] == note@);
                assert(note_lines(section@.notes).take(n + 1) =~= note_lines(
                    section@.notes,
                ).take(n as int).push(note@));
                assert(views(lines@.push(note)) =~= views(lines@).push(note@));
            }
            lines.push(note);
            n += 1;
        }
        let blank: Vec<char> = Vec::new();
        proof {
            assert(note_lines(section@.notes).take(n as int) == note_lines(section@.notes));
            assert(views(lines@.push(blank)) =~= views(lines@).push(blank@));
            assert(views(lines@.push(blank)) =~= start + section_lines(section@));
            assert(sections@.take(k + 1).drop_last() == sections@.take(k as int));
            assert(sections@.take(k + 1).last() == section@);
            assert(before + sections_lines(sections@.take(k as int)) + section_lines(section@)
                =~= before + sections_lines(sections@.take(k + 1)));
        }
        lines.push(blank);
        k += 1;
    }
    assert(sections@.take(k as int) == sections@);
}

/// The text made of the lines, each followed by a line feed.
fn terminate(lines: &Vec<Vec<char>>) -> (r: Vec<char>)
    ensures
        r@ == terminated(views(lines@)),
{
    let mut out: Vec<char> = Vec::new();
    let mut i: usize = 0;
    proof {
        assert(views(lines@).take(0) =~= Seq::<Seq<char>>::empty());
    }
    while i < lines.len()
        invariant
            i <= lines.len(),
            out@ == terminated(views(lines@).take(i as int)),
        decreases lines.len() - i,
    {
        proof {
            assert(views(lines@).take(i + 1).drop_last() == views(lines@).take(i as int));
            assert(views(lines@).take(i + 1).last() == lines@[i as int]@);
        }
        push_all(&mut out, &lines[i]);
        out.push('\n');
        i += 1;
    }
    assert(views(lines@).take(i as int) == views(lines@));
    out
}

impl ChangelogDocument {
    /// The canonical text of the changelog, with the releases in the order
    /// in which they stand.
    pub fn to_markdown(&self) -> (s: String)
        ensures
            s@ == markdown(self@),
    {
        let mut lines: Vec<Vec<char>> = Vec::new();
        let title = with_suffix(to_chars("# "), self.title.as_str());
        lines.push(title);
        lines.push(Vec::new());
        let ghost head = views(lines@);
        let ghost rs = self@.releases;
        proof {
            assert(head =~= seq!["# "@ + self@.title, Seq::<char>::empty()]);
            assert(rs.take(0) =~= Seq::<ReleaseView>::empty());
            assert(head + releases_lines(rs.take(0)) =~= head);
        }
        let mut i: usize = 0;
        while i < self.releases.len()
            invariant
                i <= self.releases.len(),
                rs == release_views(self.releases@),
                views(lines@) == head + releases_lines(rs.take(i as int)),
            decreases self.releases.len() - i,
        {
            let release = &self.releases[i];
            let ghost start = views(lines@);
            let header = render_release_header(release);
            let header = to_chars(header.as_str());
            let blank: Vec<char> = Vec::new();
            proof {
                assert(views(lines@.push(header).push(blank)) =~= start + seq![
                    header_line(release@),
                    Seq::<char>::empty(),
                ]);
            }
            lines.push(header);
            lines.push(blank);
            push_sections(&mut lines, &release.sections);
            proof {
                assert(rs.take(i + 1).drop_last() == rs.take(i as int));
                assert(rs.take(i + 1).last() == release@);
                assert(views(lines@) =~= head + releases_lines(rs.take(i + 1)));
            }
            i += 1;
        }
        assert(rs.take(i as int) == rs);
        let body = terminate(&lines);
        let mut out = trimmed_end(&body);
        out.push('\n');
        from_chars(&out)
    }
}

} // verus!
