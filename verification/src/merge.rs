//! Converging releases: the notes of several releases as one synthetic
//! release.

use crate::document::{ChangelogDocument, DocumentView, HeaderFormat, HeaderView, Release};
use crate::document::{ReleaseView, release_views};
use crate::notes::{dedupe_grouped_notes, dedupe_sections};
use crate::sections::{SectionMap, SectionView, with_note};
use crate::version::{Version, VersionView};
use vstd::prelude::*;

verus! {

/// `acc` with the notes appended, in their order, to the section `name`.
pub open spec fn with_notes(acc: Seq<SectionView>, name: Seq<char>, notes: Seq<Seq<char>>) -> Seq<
    SectionView,
>
    decreases notes.len(),
{
    if notes.len() == 0 {
        acc
    } else {
        with_note(with_notes(acc, name, notes.drop_last()), name, notes.last())
    }
}

/// `acc` with the notes of the sections appended, section by section.
pub open spec fn with_sections(acc: Seq<SectionView>, ss: Seq<SectionView>) -> Seq<SectionView>
    decreases ss.len(),
{
    if ss.len() == 0 {
        acc
    } else {
        with_notes(with_sections(acc, ss.drop_last()), ss.last().name, ss.last().notes)
    }
}

/// The sections of all releases taken together, release by release.
pub open spec fn merged_sections(rs: Seq<ReleaseView>) -> Seq<SectionView>
    decreases rs.len(),
{
    if rs.len() == 0 {
        Seq::empty()
    } else {
        with_sections(merged_sections(rs.drop_last()), rs.last().sections)
    }
}

/// The release that stands for a converged view: no real version, no
/// date, and a heading that says what it is.
pub open spec fn converged_release(rs: Seq<ReleaseView>) -> ReleaseView {
    ReleaseView {
        version: VersionView {
            major: 0,
            minor: 0,
            patch: 0,
            pre: Seq::empty(),
            build: Seq::empty(),
        },
        date: None,
        header: HeaderView::Custom("## [converged]"@),
        sections: dedupe_sections(merged_sections(rs)),
    }
}

/// The changelog that holds nothing but the converged release.
pub open spec fn converged(rs: Seq<ReleaseView>) -> DocumentView {
    DocumentView { title: "Changelog"@, releases: seq![converged_release(rs)] }
}

/// Merges the releases into one: the notes of all of them by section, in
/// the order of the releases, then deduplicated.
pub fn converge_releases(releases: &[Release]) -> (d: ChangelogDocument)
    ensures
        d@ == converged(release_views(releases@)),
{
    let ghost rs = release_views(releases@);
    let mut merged = SectionMap::new();
    let mut i: usize = 0;
    proof {
        assert(rs.take(0) =~= Seq::<ReleaseView>::empty());
    }
    while i < releases.len()
        invariant
            i <= releases.len(),
            rs == release_views(releases@),
            merged@ == merged_sections(rs.take(i as int)),
        decreases releases.len() - i,
    {
        let sections = &releases[i].sections;
        let ghost ss = sections@;
        let ghost start = merged@;
        let mut k: usize = 0;
        proof {
            assert(ss.take(0) =~= Seq::<SectionView>::empty());
        }
        while k < sections.len()
            invariant
                k <= ss.len(),
                ss == sections@,
                merged@ == with_sections(start, ss.take(k as int)),
            decreases ss.len() - k,
        {
            let section = sections.section(k);
            let ghost notes = section@.notes;
            let ghost base = merged@;
            let mut n: usize = 0;
            proof {
                assert(notes.take(0) =~= Seq::<Seq<char>>::empty());
            }
            while n < section.notes.len()
                invariant
                    n <= section.notes.len(),
                    notes == section@.notes,
                    merged@ == with_notes(base, section@.name, notes.take(n as int)),
                decreases section.notes.len() - n,
            {
                proof {
                    assert(notes.take(n + 1).drop_last() == notes.take(n as int));
                    assert(notes.take(n + 1).last() == section.notes@[n as int]@);
                }
                merged.add_note(section.name.clone(), section.notes[n].clone());
                n += 1;
            }
            proof {
                assert(notes.take(n as int) == notes);
                assert(ss.take(k + 1).drop_last() == ss.take(k as int));
                assert(ss.take(k + 1).last() == section@);
            }
            k += 1;
        }
        proof {
            assert(ss.take(k as int) == ss);
            assert(rs.take(i + 1).drop_last() == rs.take(i as int));
            assert(rs.take(i + 1).last() == releases@[i as int]@);
        }
        i += 1;
    }
    assert(rs.take(i as int) == rs);
    let release = Release {
        version: Version::new(0, 0, 0),
        date: None,
        header: HeaderFormat::Custom("## [converged]".to_owned()),
        sections: dedupe_grouped_notes(&merged),
    };
    let mut doc = ChangelogDocument::scaffold();
    assert(release_views(doc.releases@.push(release)) =~= seq![release@]);
    doc.releases.push(release);
    doc
}

} // verus!
