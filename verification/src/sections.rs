//! The sections of a release: a map from section name to notes that is
//! walked in the lexicographic order of the names, while the notes of one
//! section stay in the order in which they were added.

use crate::text::{chars_lt, same_chars, string_views, text_lt, to_chars};
use crate::text::{lemma_text_lt_irreflexive, lemma_text_lt_total, lemma_text_lt_transitive};
use vstd::prelude::*;

verus! {

/// The mathematical value of one section: its name and its notes in order.
pub struct SectionView {
    pub name: Seq<char>,
    pub notes: Seq<Seq<char>>,
}

/// Whether the names of `s` strictly increase, so that no name occurs twice.
pub open spec fn sorted_by_name(s: Seq<SectionView>) -> bool {
    forall|i: int, j: int| 0 <= i < j < s.len() ==> text_lt(s[i].name, s[j].name)
}

/// The number of leading sections of `s` whose name comes before `name`:
/// in a sorted `s`, the index at which a section of that name stands or
/// would be inserted.
pub open spec fn position(s: Seq<SectionView>, name: Seq<char>) -> int
    decreases s.len(),
{
    if s.len() == 0 || !text_lt(s[0].name, name) {
        0
    } else {
        1 + position(s.skip(1), name)
    }
}

/// Whether the sorted `s` has a section called `name`.
pub open spec fn has_section(s: Seq<SectionView>, name: Seq<char>) -> bool {
    let p = position(s, name);
    0 <= p < s.len() && s[p].name == name
}

/// The notes of the section called `name`, empty if there is none.
pub open spec fn notes_of(s: Seq<SectionView>, name: Seq<char>) -> Seq<Seq<char>> {
    if has_section(s, name) {
        s[position(s, name)].notes
    } else {
        Seq::empty()
    }
}

/// `s` with the section `name` holding `notes`, replaced if it was there and
/// inserted in order if not.
pub open spec fn with_section(s: Seq<SectionView>, name: Seq<char>, notes: Seq<Seq<char>>) -> Seq<
    SectionView,
> {
    let p = position(s, name);
    if has_section(s, name) {
        s.update(p, SectionView { name, notes })
    } else if 0 <= p <= s.len() {
        s.insert(p, SectionView { name, notes })
    } else {
        s
    }
}

/// `s` with `note` appended to the section `name`, which is created if it
/// was not there.
pub open spec fn with_note(s: Seq<SectionView>, name: Seq<char>, note: Seq<char>) -> Seq<
    SectionView,
> {
    with_section(s, name, notes_of(s, name).push(note))
}

/// `s` with a section `name`, created empty if it was not there.
pub open spec fn with_heading(s: Seq<SectionView>, name: Seq<char>) -> Seq<SectionView> {
    with_section(s, name, notes_of(s, name))
}

pub proof fn lemma_position_bounds(s: Seq<SectionView>, name: Seq<char>)
    ensures
        0 <= position(s, name) <= s.len(),
        forall|i: int| 0 <= i < position(s, name) ==> text_lt(#[trigger] s[i].name, name),
        position(s, name) < s.len() ==> !text_lt(s[position(s, name)].name, name),
    decreases s.len(),
{
    if s.len() == 0 || !text_lt(s[0].name, name) {
    } else {
        lemma_position_bounds(s.skip(1), name);
        assert forall|i: int| 0 <= i < position(s, name) implies text_lt(
            #[trigger] s[i].name,
            name,
        ) by {
            if i > 0 {
                assert(s.skip(1)[i - 1] == s[i]);
            }
        }
    }
}

/// The index after a run of smaller names at which the name is not smaller
/// is the position.
pub proof fn lemma_position_is(s: Seq<SectionView>, name: Seq<char>, k: int)
    requires
        0 <= k <= s.len(),
        forall|i: int| 0 <= i < k ==> text_lt(#[trigger] s[i].name, name),
        k < s.len() ==> !text_lt(s[k].name, name),
    ensures
        position(s, name) == k,
    decreases k,
{
    if k > 0 {
        assert(text_lt(s[0].name, name));
        assert forall|i: int| 0 <= i < k - 1 implies text_lt(
            #[trigger] s.skip(1)[i].name,
            name,
        ) by {
            assert(s.skip(1)[i] == s[i + 1]);
        }
        lemma_position_is(s.skip(1), name, k - 1);
    }
}

/// In a sorted sequence a section is found by its name exactly where
/// `position` points, and nowhere else.
pub proof fn lemma_has_section(s: Seq<SectionView>, name: Seq<char>)
    requires
        sorted_by_name(s),
    ensures
        has_section(s, name) <==> exists|i: int| 0 <= i < s.len() && #[trigger] s[i].name == name,
        forall|i: int|
            0 <= i < s.len() && #[trigger] s[i].name == name ==> i == position(s, name),
{
    lemma_position_bounds(s, name);
    let p = position(s, name);
    assert forall|i: int| 0 <= i < s.len() && #[trigger] s[i].name == name implies i == p by {
        lemma_text_lt_irreflexive(name);
        if i < p {
            assert(text_lt(s[i].name, name));
        } else if i > p {
            assert(text_lt(s[p].name, s[i].name));
        }
    }
}

/// Replacing or inserting a section keeps the names sorted.
pub proof fn lemma_with_section_sorted(
    s: Seq<SectionView>,
    name: Seq<char>,
    notes: Seq<Seq<char>>,
)
    requires
        sorted_by_name(s),
    ensures
        sorted_by_name(with_section(s, name, notes)),
        has_section(with_section(s, name, notes), name),
        notes_of(with_section(s, name, notes), name) == notes,
        position(with_section(s, name, notes), name) == position(s, name),
{
    lemma_position_bounds(s, name);
    let p = position(s, name);
    let r = with_section(s, name, notes);
    lemma_text_lt_irreflexive(name);
    if has_section(s, name) {
        assert forall|i: int, j: int| 0 <= i < j < r.len() implies text_lt(
            r[i].name,
            r[j].name,
        ) by {
            assert(r[i].name == s[i].name);
            assert(r[j].name == s[j].name);
        }
    } else {
        assert forall|j: int| p <= j < s.len() implies text_lt(name, #[trigger] s[j].name) by {
            lemma_text_lt_total(name, s[j].name);
            if text_lt(s[j].name, name) {
                if j > p {
                    lemma_text_lt_transitive(s[p].name, s[j].name, name);
                }
            } else if s[j].name == name {
                lemma_has_section(s, name);
            }
        }
        assert forall|i: int, j: int| 0 <= i < j < r.len() implies text_lt(
            r[i].name,
            r[j].name,
        ) by {
            if j < p {
                assert(r[i] == s[i] && r[j] == s[j]);
            } else if j == p {
                assert(r[i] == s[i]);
                assert(text_lt(s[i].name, name));
            } else if i < p {
                assert(r[i] == s[i] && r[j] == s[j - 1]);
            } else if i == p {
                assert(r[j] == s[j - 1]);
            } else {
                assert(r[i] == s[i - 1] && r[j] == s[j - 1]);
            }
        }
    }
    assert forall|i: int| 0 <= i < p implies text_lt(#[trigger] r[i].name, name) by {
        assert(r[i].name == s[i].name);
    }
    lemma_position_is(r, name, p);
}

/// Putting a section behind sections of smaller names appends it.
pub proof fn lemma_with_section_appends(s: Seq<SectionView>, name: Seq<char>, notes: Seq<Seq<char>>)
    requires
        forall|i: int| 0 <= i < s.len() ==> text_lt(#[trigger] s[i].name, name),
    ensures
        with_section(s, name, notes) == s.push(SectionView { name, notes }),
{
    lemma_position_is(s, name, s.len() as int);
    assert(s.insert(s.len() as int, SectionView { name, notes }) =~= s.push(
        SectionView { name, notes },
    ));
}

/// One section: a name and the notes under it.
#[derive(Debug, PartialEq, Eq)]
pub struct Section {
    pub name: String,
    pub notes: Vec<String>,
}

impl View for Section {
    type V = SectionView;

    open spec fn view(&self) -> SectionView {
        SectionView { name: self.name@, notes: string_views(self.notes@) }
    }
}

/// The views of a sequence of sections.
pub open spec fn section_views(v: Seq<Section>) -> Seq<SectionView> {
    Seq::new(v.len(), |i: int| v[i]@)
}

/// A copy of a list of strings.
pub fn clone_strings(v: &Vec<String>) -> (r: Vec<String>)
    ensures
        string_views(r@) == string_views(v@),
{
    let mut r: Vec<String> = Vec::new();
    let mut i: usize = 0;
    while i < v.len()
        invariant
            i <= v.len(),
            r.len() == i,
            forall|j: int| 0 <= j < i ==> r@[j]@ == v@[j]@,
        decreases v.len() - i,
    {
        r.push(v[i].clone());
        i += 1;
    }
    assert(string_views(r@) =~= string_views(v@));
    r
}

/// Sections keyed by name and kept in the lexicographic order of the names.
#[derive(Debug, PartialEq, Eq)]
pub struct SectionMap {
    entries: Vec<Section>,
}

impl View for SectionMap {
    type V = Seq<SectionView>;

    closed spec fn view(&self) -> Seq<SectionView> {
        section_views(self.entries@)
    }
}

impl Clone for SectionMap {
    fn clone(&self) -> (r: Self)
        ensures
            r@ == self@,
    {
        proof {
            use_type_invariant(self);
        }
        let mut entries: Vec<Section> = Vec::new();
        let mut i: usize = 0;
        while i < self.entries.len()
            invariant
                i <= self.entries.len(),
                entries.len() == i,
                forall|j: int| 0 <= j < i ==> entries@[j]@ == self.entries@[j]@,
            decreases self.entries.len() - i,
        {
            let name = self.entries[i].name.clone();
            let notes = clone_strings(&self.entries[i].notes);
            entries.push(Section { name, notes });
            i += 1;
        }
        assert(section_views(entries@) =~= section_views(self.entries@));
        SectionMap { entries }
    }
}

impl SectionMap {
    #[verifier::type_invariant]
    spec fn names_sorted(self) -> bool {
        sorted_by_name(section_views(self.entries@))
    }

    /// No sections.
    pub fn new() -> (r: SectionMap)
        ensures
            r@ == Seq::<SectionView>::empty(),
    {
        let r = SectionMap { entries: Vec::new() };
        assert(r@ =~= Seq::<SectionView>::empty());
        r
    }

    /// The number of sections.
    pub fn len(&self) -> (n: usize)
        ensures
            n == self@.len(),
    {
        self.entries.len()
    }

    pub fn is_empty(&self) -> (r: bool)
        ensures
            r == (self@.len() == 0),
    {
        self.entries.len() == 0
    }

    /// The sections are sorted by name, so no name occurs twice.
    pub fn check_sorted(&self)
        ensures
            sorted_by_name(self@),
    {
        proof {
            use_type_invariant(self);
        }
    }

    /// The `i`-th section in the order of the names.
    pub fn section(&self, i: usize) -> (r: &Section)
        requires
            i < self@.len(),
        ensures
            r@ == self@[i as int],
    {
        &self.entries[i]
    }

    /// The index at which `name` stands or would be inserted, and whether
    /// it stands there.
    fn locate(&self, name: &str) -> (r: (usize, bool))
        ensures
            r.0 == position(self@, name@),
            r.0 <= self@.len(),
            r.1 == has_section(self@, name@),
    {
        let key = to_chars(name);
        let mut i: usize = 0;
        while i < self.entries.len()
            invariant
                i <= self.entries.len(),
                key@ == name@,
                forall|j: int| 0 <= j < i ==> text_lt(#[trigger] self@[j].name, name@),
            decreases self.entries.len() - i,
        {
            let here = to_chars(self.entries[i].name.as_str());
            if !chars_lt(&here, &key) {
                proof {
                    lemma_position_is(self@, name@, i as int);
                }
                return (i, same_chars(&here, &key));
            }
            i += 1;
        }
        proof {
            lemma_position_is(self@, name@, i as int);
        }
        (i, false)
    }

    /// Whether there is a section called `name`.
    pub fn contains_key(&self, name: &str) -> (r: bool)
        ensures
            r == has_section(self@, name@),
    {
        self.locate(name).1
    }

    /// The notes of the section called `name`.
    pub fn get(&self, name: &str) -> (r: Option<&Vec<String>>)
        ensures
            r is Some == has_section(self@, name@),
            r matches Some(notes) ==> string_views(notes@) == notes_of(self@, name@),
    {
        let (at, found) = self.locate(name);
        if found {
            Some(&self.entries[at].notes)
        } else {
            None
        }
    }

    /// Moves the sections out, leaving none behind.
    fn take_entries(&mut self) -> (entries: Vec<Section>)
        ensures
            section_views(entries@) == old(self)@,
            sorted_by_name(old(self)@),
            final(self)@ == Seq::<SectionView>::empty(),
    {
        proof {
            use_type_invariant(&*self);
        }
        let mut entries: Vec<Section> = Vec::new();
        assert(section_views(entries@) =~= Seq::<SectionView>::empty());
        std::mem::swap(&mut self.entries, &mut entries);
        entries
    }

    /// Sets the notes of the section `name`, which is created if it is not
    /// there.
    pub fn insert(&mut self, name: String, notes: Vec<String>)
        ensures
            final(self)@ == with_section(old(self)@, name@, string_views(notes@)),
    {
        let (at, found) = self.locate(name.as_str());
        let ghost before = self@;
        let ghost after = with_section(before, name@, string_views(notes@));
        let mut entries = self.take_entries();
        proof {
            lemma_with_section_sorted(before, name@, string_views(notes@));
        }
        if found {
            entries.remove(at);
        }
        entries.insert(at, Section { name, notes });
        assert(section_views(entries@) =~= after);
        self.entries = entries;
    }

    /// Appends `note` to the section `name`, which is created if it is not
    /// there.
    pub fn add_note(&mut self, name: String, note: String)
        ensures
            final(self)@ == with_note(old(self)@, name@, note@),
    {
        let (at, found) = self.locate(name.as_str());
        let ghost before = self@;
        let ghost after = with_note(before, name@, note@);
        let mut entries = self.take_entries();
        proof {
            lemma_with_section_sorted(before, name@, notes_of(before, name@).push(note@));
        }
        if found {
            let mut section = entries.remove(at);
            assert(section@ == before[at as int]);
            section.notes.push(note);
            assert(string_views(section.notes@) =~= notes_of(before, name@).push(note@));
            entries.insert(at, section);
        } else {
            let mut notes: Vec<String> = Vec::new();
            notes.push(note);
            assert(string_views(notes@) =~= notes_of(before, name@).push(note@));
            entries.insert(at, Section { name, notes });
        }
        assert(section_views(entries@) =~= after);
        self.entries = entries;
    }

    /// Makes sure that there is a section `name`, empty if it is new.
    pub fn ensure(&mut self, name: String)
        ensures
            final(self)@ == with_heading(old(self)@, name@),
    {
        let (at, found) = self.locate(name.as_str());
        let ghost before = self@;
        let mut entries = self.take_entries();
        proof {
            lemma_with_section_sorted(before, name@, notes_of(before, name@));
        }
        if !found {
            let notes: Vec<String> = Vec::new();
            assert(string_views(notes@) =~= notes_of(before, name@));
            entries.insert(at, Section { name, notes });
        }
        assert(section_views(entries@) =~= with_heading(before, name@));
        self.entries = entries;
    }
}

} // verus!
