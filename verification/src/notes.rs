//! From commit messages to release notes: the ignore filter, the
//! classifier of conventional commits, the grouping of notes by section and
//! the removal of notes that say the same.

use crate::commit::{Commit, messages};
use crate::sections::{SectionMap, SectionView, sorted_by_name, with_note};
use crate::sections::lemma_with_section_appends;
use crate::text::{char_is_whitespace, contains, contains_text, first_line, from_chars};
use crate::text::{index_of, is_whitespace, position_of, same_text, slice_of, string_views};
use crate::text::{text_lt, to_chars, trim, trimmed};
use vstd::prelude::*;

verus! {

/// What `str::to_lowercase` returns for a text: its lowercase equivalent
/// by the Unicode case mapping.
pub uninterp spec fn lowercased(s: Seq<char>) -> Seq<char>;

/// `str::to_lowercase` returns the text that `lowercased` names: it is a
/// function of its argument alone.
pub assume_specification[ str::to_lowercase ](s: &str) -> (r: String)
    ensures
        r@ == lowercased(s@),
;

/// Whether a text in lower case holds one of the markers that keep a
/// commit out of the changelog.
pub open spec fn has_marker(lowered: Seq<char>) -> bool {
    contains(lowered, "(skip changelog)"@) || contains(lowered, "(ignore changelog)"@) || contains(
        lowered,
        "!changelog"@,
    ) || contains(lowered, "!log"@)
}

/// Whether a commit is kept out of the changelog: its whole message, in
/// lower case, holds a marker.
pub open spec fn should_ignore(message: Seq<char>) -> bool {
    has_marker(lowercased(message))
}

/// Whether a text that is already in lower case holds an ignore marker.
pub fn contains_ignore_marker(lowered: &str) -> (r: bool)
    ensures
        r == has_marker(lowered@),
{
    let text = to_chars(lowered);
    contains_text(&text, "(skip changelog)") || contains_text(&text, "(ignore changelog)")
        || contains_text(&text, "!changelog") || contains_text(&text, "!log")
}

/// Whether a commit is kept out of the changelog.
pub fn should_ignore_commit(message: &str) -> (r: bool)
    ensures
        r == should_ignore(message@),
{
    let lower = message.to_lowercase();
    contains_ignore_marker(lower.as_str())
}

/// `s` without one exclamation mark at its end.
pub open spec fn without_bang(s: Seq<char>) -> Seq<char> {
    if s.len() > 0 && s.last() == '!' {
        s.drop_last()
    } else {
        s
    }
}

/// The kind and the description of a conventional commit, read from the
/// first line of its message, trimmed. The description is what follows the
/// first colon, trimmed. The kind is what stands before the colon, up to a
/// scope in parentheses if there is one, trimmed and without one
/// exclamation mark at its end. `None` if there is no colon or if either
/// part is empty.
pub open spec fn conventional(message: Seq<char>) -> Option<(Seq<char>, Seq<char>)> {
    let line = trim(first_line(message));
    let colon = index_of(line, ':');
    if colon >= line.len() {
        None
    } else {
        let description = trim(line.skip(colon + 1));
        let head = line.take(colon);
        let kind = without_bang(trim(head.take(index_of(head, '('))));
        if description.len() == 0 || kind.len() == 0 {
            None
        } else {
            Some((kind, description))
        }
    }
}

/// The trimmed first line of a message.
pub fn summary_line(message: &str) -> (r: Vec<char>)
    ensures
        r@ == trim(first_line(message@)),
{
    let chars = to_chars(message);
    let end = position_of(&chars, '\n');
    let first = slice_of(&chars, 0, end);
    assert(first@ == chars@.take(end as int));
    trimmed(&first)
}

/// Reads a conventional commit: its kind and its description.
pub fn parse_conventional_commit(message: &str) -> (r: Option<(String, String)>)
    ensures
        r is Some == conventional(message@) is Some,
        r matches Some(p) ==> conventional(message@) == Some((p.0@, p.1@)),
{
    let line = summary_line(message);
    let colon = position_of(&line, ':');
    if colon >= line.len() {
        return None;
    }
    let tail = slice_of(&line, colon + 1, line.len());
    assert(tail@ == line@.skip(colon + 1));
    let description = trimmed(&tail);
    let head = slice_of(&line, 0, colon);
    assert(head@ == line@.take(colon as int));
    let paren = position_of(&head, '(');
    let before = slice_of(&head, 0, paren);
    assert(before@ == head@.take(paren as int));
    let mut kind = trimmed(&before);
    if kind.len() > 0 && kind[kind.len() - 1] == '!' {
        kind.pop();
    }
    if description.len() == 0 || kind.len() == 0 {
        return None;
    }
    Some((from_chars(&kind), from_chars(&description)))
}

/// A table from commit kinds to section names. A kind that is put in
/// again takes the new section.
#[derive(Debug, PartialEq, Eq)]
pub struct TypeMap {
    entries: Vec<(String, String)>,
}

/// The map that a list of entries spells, later entries first.
pub open spec fn map_of(entries: Seq<(String, String)>) -> Map<Seq<char>, Seq<char>>
    decreases entries.len(),
{
    if entries.len() == 0 {
        Map::empty()
    } else {
        map_of(entries.drop_last()).insert(entries.last().0@, entries.last().1@)
    }
}

impl View for TypeMap {
    type V = Map<Seq<char>, Seq<char>>;

    closed spec fn view(&self) -> Map<Seq<char>, Seq<char>> {
        map_of(self.entries@)
    }
}

impl TypeMap {
    /// The empty table.
    pub fn new() -> (r: TypeMap)
        ensures
            r@ == Map::<Seq<char>, Seq<char>>::empty(),
    {
        TypeMap { entries: Vec::new() }
    }

    /// Maps `kind` to `section`.
    pub fn insert(&mut self, kind: String, section: String)
        ensures
            final(self)@ == old(self)@.insert(kind@, section@),
    {
        let ghost before = self.entries@;
        self.entries.push((kind, section));
        assert(self.entries@.drop_last() == before);
    }

    /// The section of `kind`, if the table has it.
    pub fn get(&self, kind: &str) -> (r: Option<&String>)
        ensures
            r is Some == self@.contains_key(kind@),
            r matches Some(section) ==> section@ == self@[kind@],
    {
        let mut i: usize = self.entries.len();
        assert(self.entries@.take(i as int) == self.entries@);
        while i > 0
            invariant
                i <= self.entries.len(),
                self@.contains_key(kind@) == map_of(self.entries@.take(i as int)).contains_key(
                    kind@,
                ),
                self@.contains_key(kind@) ==> self@[kind@] == map_of(
                    self.entries@.take(i as int),
                )[kind@],
            decreases i,
        {
            proof {
                let prefix = self.entries@.take(i as int);
                assert(prefix.drop_last() == self.entries@.take(i - 1));
                assert(prefix.last() == self.entries@[i - 1]);
            }
            if same_text(self.entries[i - 1].0.as_str(), kind) {
                return Some(&self.entries[i - 1].1);
            }
            i -= 1;
        }
        None
    }
}

/// The section of a kind that the table does not have.
pub open spec fn default_section(kind: Seq<char>) -> Seq<char> {
    if kind == "feat"@ {
        "Added"@
    } else if kind == "fix"@ {
        "Fixed"@
    } else if kind == "perf"@ || kind == "refactor"@ {
        "Changed"@
    } else if kind == "docs"@ {
        "Documentation"@
    } else if kind == "test"@ || kind == "chore"@ || kind == "build"@ || kind == "ci"@ {
        "Maintenance"@
    } else {
        "Other"@
    }
}

/// The section of a kind: the one the table gives, else the default.
pub open spec fn section_of(kind: Seq<char>, mapping: Map<Seq<char>, Seq<char>>) -> Seq<char> {
    if mapping.contains_key(kind) {
        mapping[kind]
    } else {
        default_section(kind)
    }
}

/// The section to which commits of a kind go.
pub fn map_type_to_section(kind: &str, mapping: &TypeMap) -> (r: String)
    ensures
        r@ == section_of(kind@, mapping@),
{
    match mapping.get(kind) {
        Some(section) => {
            return section.clone();
        },
        None => {},
    }
    if same_text(kind, "feat") {
        "Added".to_owned()
    } else if same_text(kind, "fix") {
        "Fixed".to_owned()
    } else if same_text(kind, "perf") || same_text(kind, "refactor") {
        "Changed".to_owned()
    } else if same_text(kind, "docs") {
        "Documentation".to_owned()
    } else if same_text(kind, "test") || same_text(kind, "chore") || same_text(kind, "build")
        || same_text(kind, "ci") {
        "Maintenance".to_owned()
    } else {
        "Other".to_owned()
    }
}

/// The section and the text of the note that a commit gives, or `None` if
/// the commit is ignored or its first line is blank. A conventional commit
/// gives its description to the section of its kind; any other gives its
/// trimmed first line to "Other".
pub open spec fn note_of(message: Seq<char>, mapping: Map<Seq<char>, Seq<char>>) -> Option<
    (Seq<char>, Seq<char>),
> {
    let text = trim(first_line(message));
    if should_ignore(message) || text.len() == 0 {
        None
    } else {
        match conventional(text) {
            Some((kind, description)) => Some((section_of(kind, mapping), description)),
            None => Some(("Other"@, text)),
        }
    }
}

/// The notes of the commits by section, each section in the order of the
/// commits.
pub open spec fn grouped(messages: Seq<Seq<char>>, mapping: Map<Seq<char>, Seq<char>>) -> Seq<
    SectionView,
>
    decreases messages.len(),
{
    if messages.len() == 0 {
        Seq::empty()
    } else {
        let front = grouped(messages.drop_last(), mapping);
        match note_of(messages.last(), mapping) {
            None => front,
            Some((section, text)) => with_note(front, section, text),
        }
    }
}

/// A commit whose message holds an ignore marker, in whatever case, gives
/// no note: the notes of commits are the same with it as without it.
pub proof fn lemma_ignored_commit_gives_no_note(
    before: Seq<Seq<char>>,
    message: Seq<char>,
    mapping: Map<Seq<char>, Seq<char>>,
)
    requires
        has_marker(lowercased(message)),
    ensures
        note_of(message, mapping) is None,
        grouped(before.push(message), mapping) == grouped(before, mapping),
{
    assert(before.push(message).drop_last() == before);
}

/// The text with every run of whitespace between two words made one space
/// and the whitespace at both ends dropped. `word_before` tells that a word
/// has been written, `in_gap` that whitespace has been read since.
pub open spec fn squeeze(s: Seq<char>, word_before: bool, in_gap: bool) -> Seq<char>
    decreases s.len(),
{
    if s.len() == 0 {
        Seq::empty()
    } else if is_whitespace(s[0]) {
        squeeze(s.skip(1), word_before, true)
    } else if word_before && in_gap {
        seq![' ', s[0]] + squeeze(s.skip(1), true, false)
    } else {
        seq![s[0]] + squeeze(s.skip(1), true, false)
    }
}

/// The key by which two notes count as the same: the words of the note
/// joined by single spaces, in lower case.
pub open spec fn note_key(note: Seq<char>) -> Seq<char> {
    lowercased(squeeze(note, false, false))
}

/// The words of a text joined by single spaces.
pub fn squeezed(v: &Vec<char>) -> (r: Vec<char>)
    ensures
        r@ == squeeze(v@, false, false),
{
    let mut out: Vec<char> = Vec::new();
    let mut word_before = false;
    let mut in_gap = false;
    let mut i: usize = 0;
    proof {
        assert(v@.skip(0) == v@);
        assert(out@ + squeeze(v@, false, false) =~= squeeze(v@, false, false));
    }
    while i < v.len()
        invariant
            i <= v.len(),
            squeeze(v@, false, false) == out@ + squeeze(v@.skip(i as int), word_before, in_gap),
        decreases v.len() - i,
    {
        let ghost before = out@;
        let ghost rest = v@.skip(i as int);
        proof {
            assert(rest[0] == v@[i as int]);
            assert(rest.skip(1) == v@.skip(i + 1));
        }
        let c = v[i];
        if char_is_whitespace(c) {
            in_gap = true;
        } else {
            if word_before && in_gap {
                out.push(' ');
            }
            out.push(c);
            assert(before + (if word_before && in_gap {
                seq![' ', c]
            } else {
                seq![c]
            }) =~= out@);
            assert(before + ((if word_before && in_gap {
                seq![' ', c]
            } else {
                seq![c]
            }) + squeeze(rest.skip(1), true, false)) =~= out@ + squeeze(
                rest.skip(1),
                true,
                false,
            ));
            word_before = true;
            in_gap = false;
        }
        i += 1;
    }
    assert(out@ + Seq::<char>::empty() =~= out@);
    out
}

/// The key by which two notes count as the same.
pub fn canonical_note_key(note: &str) -> (r: String)
    ensures
        r@ == note_key(note@),
{
    let chars = to_chars(note);
    let words = from_chars(&squeezed(&chars));
    words.as_str().to_lowercase()
}

/// Whether the note at index `i` has the key of an earlier note.
pub open spec fn seen_before(notes: Seq<Seq<char>>, i: int) -> bool {
    exists|j: int| 0 <= j < i && note_key(#[trigger] notes[j]) == note_key(notes[i])
}

/// The notes without those that have the key of an earlier note.
pub open spec fn dedupe_notes(notes: Seq<Seq<char>>) -> Seq<Seq<char>>
    decreases notes.len(),
{
    if notes.len() == 0 {
        notes
    } else if seen_before(notes, notes.len() - 1) {
        dedupe_notes(notes.drop_last())
    } else {
        dedupe_notes(notes.drop_last()).push(notes.last())
    }
}

/// The sections with their notes deduplicated, without the sections that
/// have no notes.
pub open spec fn dedupe_sections(ss: Seq<SectionView>) -> Seq<SectionView>
    decreases ss.len(),
{
    if ss.len() == 0 {
        ss
    } else if dedupe_notes(ss.last().notes).len() == 0 {
        dedupe_sections(ss.drop_last())
    } else {
        dedupe_sections(ss.drop_last()).push(
            SectionView { name: ss.last().name, notes: dedupe_notes(ss.last().notes) },
        )
    }
}

/// Whether one of the notes has the key `k`.
pub open spec fn has_key(notes: Seq<Seq<char>>, k: Seq<char>) -> bool {
    exists|j: int| 0 <= j < notes.len() && note_key(#[trigger] notes[j]) == k
}

proof fn lemma_has_key_push(notes: Seq<Seq<char>>, x: Seq<char>, k: Seq<char>)
    ensures
        has_key(notes.push(x), k) <==> has_key(notes, k) || note_key(x) == k,
{
    let more = notes.push(x);
    if has_key(more, k) {
        let j = choose|j: int| 0 <= j < more.len() && note_key(#[trigger] more[j]) == k;
        if j < notes.len() {
            assert(more[j] == notes[j]);
        }
    }
    if has_key(notes, k) {
        let j = choose|j: int| 0 <= j < notes.len() && note_key(#[trigger] notes[j]) == k;
        assert(more[j] == notes[j]);
    }
    if note_key(x) == k {
        assert(more[notes.len() as int] == x);
    }
}

proof fn lemma_seen_before_has_key(notes: Seq<Seq<char>>, i: int)
    requires
        0 <= i < notes.len(),
    ensures
        seen_before(notes, i) <==> has_key(notes.take(i), note_key(notes[i])),
{
    let front = notes.take(i);
    let k = note_key(notes[i]);
    if seen_before(notes, i) {
        let j = choose|j: int| 0 <= j < i && note_key(#[trigger] notes[j]) == note_key(notes[i]);
        assert(front[j] == notes[j]);
    }
    if has_key(front, k) {
        let j = choose|j: int| 0 <= j < front.len() && note_key(#[trigger] front[j]) == k;
        assert(front[j] == notes[j]);
    }
}

/// The keys of the notes that stay are the keys of all the notes.
pub proof fn lemma_dedupe_keeps_keys(notes: Seq<Seq<char>>, k: Seq<char>)
    ensures
        has_key(dedupe_notes(notes), k) == has_key(notes, k),
    decreases notes.len(),
{
    if notes.len() > 0 {
        let front = notes.drop_last();
        let n = notes.len() - 1;
        lemma_dedupe_keeps_keys(front, k);
        assert(front.push(notes.last()) =~= notes);
        lemma_has_key_push(front, notes.last(), k);
        assert(notes.take(n) == front);
        lemma_seen_before_has_key(notes, n);
        if seen_before(notes, n) {
        } else {
            lemma_has_key_push(dedupe_notes(front), notes.last(), k);
        }
    }
}

/// No two notes that stay have the same key.
pub proof fn lemma_dedupe_notes_distinct(notes: Seq<Seq<char>>, i: int)
    requires
        0 <= i < dedupe_notes(notes).len(),
    ensures
        !seen_before(dedupe_notes(notes), i),
    decreases notes.len(),
{
    if notes.len() > 0 {
        let front = notes.drop_last();
        let n = notes.len() - 1;
        let df = dedupe_notes(front);
        let d = dedupe_notes(notes);
        assert(notes.take(n) == front);
        lemma_seen_before_has_key(notes, n);
        if seen_before(notes, n) {
            lemma_dedupe_notes_distinct(front, i);
        } else {
            lemma_seen_before_has_key(d, i);
            if i < df.len() {
                lemma_dedupe_notes_distinct(front, i);
                lemma_seen_before_has_key(df, i);
                assert(d.take(i) =~= df.take(i));
                assert(d[i] == df[i]);
            } else {
                assert(d.take(i) =~= df);
                assert(d[i] == notes.last());
                lemma_dedupe_keeps_keys(front, note_key(notes.last()));
            }
        }
    }
}

/// Notes of which no two have the same key stay as they are.
pub proof fn lemma_dedupe_notes_fixed(notes: Seq<Seq<char>>)
    requires
        forall|i: int| 0 <= i < notes.len() ==> !seen_before(notes, i),
    ensures
        dedupe_notes(notes) == notes,
    decreases notes.len(),
{
    if notes.len() > 0 {
        let front = notes.drop_last();
        assert forall|i: int| 0 <= i < front.len() implies !seen_before(front, i) by {
            if seen_before(front, i) {
                let k = choose|k: int|
                    0 <= k < i && note_key(#[trigger] front[k]) == note_key(front[i]);
                assert(notes[k] == front[k] && notes[i] == front[i]);
                assert(seen_before(notes, i));
            }
        }
        lemma_dedupe_notes_fixed(front);
        assert(front.push(notes.last()) =~= notes);
    }
}

/// Deduplicating notes twice is deduplicating them once.
pub proof fn lemma_dedupe_notes_idempotent(notes: Seq<Seq<char>>)
    ensures
        dedupe_notes(dedupe_notes(notes)) == dedupe_notes(notes),
{
    assert forall|i: int| 0 <= i < dedupe_notes(notes).len() implies !seen_before(
        dedupe_notes(notes),
        i,
    ) by {
        lemma_dedupe_notes_distinct(notes, i);
    }
    lemma_dedupe_notes_fixed(dedupe_notes(notes));
}

/// Deduplicating grouped notes twice is deduplicating them once.
pub proof fn lemma_dedupe_idempotent(g: Seq<SectionView>)
    ensures
        dedupe_sections(dedupe_sections(g)) == dedupe_sections(g),
    decreases g.len(),
{
    if g.len() > 0 {
        let front = g.drop_last();
        lemma_dedupe_idempotent(front);
        let notes = dedupe_notes(g.last().notes);
        if notes.len() > 0 {
            let once = dedupe_sections(g);
            assert(once.drop_last() == dedupe_sections(front));
            lemma_dedupe_notes_idempotent(g.last().notes);
        }
    }
}

/// The notes of a list without those that say the same as an earlier one.
pub fn dedupe_list(notes: &Vec<String>) -> (r: Vec<String>)
    ensures
        string_views(r@) == dedupe_notes(string_views(notes@)),
{
    let ghost all = string_views(notes@);
    let mut keys: Vec<String> = Vec::new();
    let mut out: Vec<String> = Vec::new();
    let mut i: usize = 0;
    proof {
        assert(all.take(0) =~= Seq::<Seq<char>>::empty());
        assert(string_views(out@) =~= Seq::<Seq<char>>::empty());
    }
    while i < notes.len()
        invariant
            i <= notes.len(),
            all == string_views(notes@),
            keys.len() == i,
            forall|j: int| 0 <= j < i ==> (#[trigger] keys@[j])@ == note_key(all[j]),
            string_views(out@) == dedupe_notes(all.take(i as int)),
        decreases notes.len() - i,
    {
        let key = canonical_note_key(notes[i].as_str());
        assert(key@ == note_key(all[i as int]));
        let mut seen = false;
        let mut j: usize = 0;
        while j < i
            invariant
                j <= i,
                i < notes.len(),
                keys.len() == i,
                all == string_views(notes@),
                key@ == note_key(all[i as int]),
                forall|k: int| 0 <= k < i ==> (#[trigger] keys@[k])@ == note_key(all[k]),
                seen == exists|k: int| 0 <= k < j && note_key(#[trigger] all[k]) == key@,
            decreases i - j,
        {
            if keys[j] == key {
                assert(note_key(all[j as int]) == key@);
                seen = true;
            }
            j += 1;
        }
        proof {
            let prefix = all.take(i + 1);
            assert(prefix.drop_last() == all.take(i as int));
            assert(prefix.last() == all[i as int]);
            assert(seen == seen_before(prefix, i as int)) by {
                if seen {
                    let k = choose|k: int| 0 <= k < i && note_key(#[trigger] all[k]) == key@;
                    assert(prefix[k] == all[k]);
                    assert(note_key(prefix[k]) == note_key(prefix[i as int]));
                }
                if seen_before(prefix, i as int) {
                    let k = choose|k: int|
                        0 <= k < i && note_key(#[trigger] prefix[k]) == note_key(
                            prefix[i as int],
                        );
                    assert(prefix[k] == all[k]);
                    assert(note_key(all[k]) == key@);
                }
            }
        }
        if !seen {
            let note = notes[i].clone();
            assert(string_views(out@.push(note)) =~= string_views(out@).push(all[i as int]));
            out.push(note);
        }
        keys.push(key);
        i += 1;
    }
    assert(all.take(i as int) == all);
    out
}

/// Deduplicates the notes of every section: of the notes of a section
/// that have the same key the first stays; a section that is left without
/// notes is dropped.
pub fn dedupe_grouped_notes(grouped: &SectionMap) -> (r: SectionMap)
    ensures
        r@ == dedupe_sections(grouped@),
{
    let ghost all = grouped@;
    let mut out = SectionMap::new();
    let mut k: usize = 0;
    grouped.check_sorted();
    proof {
        assert(all.take(0) =~= Seq::<SectionView>::empty());
    }
    while k < grouped.len()
        invariant
            k <= all.len(),
            all == grouped@,
            sorted_by_name(all),
            out@ == dedupe_sections(all.take(k as int)),
            forall|i: int, j: int|
                0 <= i < out@.len() && k <= j < all.len() ==> text_lt(
                    #[trigger] out@[i].name,
                    #[trigger] all[j].name,
                ),
        decreases all.len() - k,
    {
        let section = grouped.section(k);
        let list = dedupe_list(&section.notes);
        proof {
            let prefix = all.take(k + 1);
            assert(prefix.drop_last() == all.take(k as int));
            assert(prefix.last() == all[k as int]);
        }
        if list.len() > 0 {
            let ghost before = out@;
            proof {
                lemma_with_section_appends(before, section@.name, string_views(list@));
            }
            out.insert(section.name.clone(), list);
            assert forall|i: int, j: int|
                0 <= i < out@.len() && k + 1 <= j < all.len() implies text_lt(
                #[trigger] out@[i].name,
                #[trigger] all[j].name,
            ) by {
                if i < before.len() {
                    assert(out@[i] == before[i]);
                } else {
                    assert(out@[i].name == all[k as int].name);
                }
            }
        }
        k += 1;
    }
    assert(all.take(k as int) == all);
    out
}

/// The release notes of a list of commits, oldest first: the notes by
/// section in the order of the commits, then deduplicated. Ignored commits
/// and commits with a blank first line give no note.
pub fn notes_from_commits(commits: &[Commit], mapping: &TypeMap) -> (r: SectionMap)
    ensures
        r@ == dedupe_sections(grouped(messages(commits@), mapping@)),
{
    let ghost all = messages(commits@);
    let mut sections = SectionMap::new();
    let mut i: usize = 0;
    proof {
        assert(all.take(0) =~= Seq::<Seq<char>>::empty());
    }
    while i < commits.len()
        invariant
            i <= commits.len(),
            all == messages(commits@),
            sections@ == grouped(all.take(i as int), mapping@),
        decreases commits.len() - i,
    {
        proof {
            let prefix = all.take(i + 1);
            assert(prefix.drop_last() == all.take(i as int));
            assert(prefix.last() == commits@[i as int].message@);
        }
        let message = commits[i].message.as_str();
        if !should_ignore_commit(message) {
            let text = summary_line(message);
            if text.len() > 0 {
                let line = from_chars(&text);
                match parse_conventional_commit(line.as_str()) {
                    Some((kind, description)) => {
                        let section = map_type_to_section(kind.as_str(), mapping);
                        sections.add_note(section, description);
                    },
                    None => {
                        sections.add_note("Other".to_owned(), line);
                    },
                }
            }
        }
        i += 1;
    }
    assert(all.take(i as int) == all);
    dedupe_grouped_notes(&sections)
}

/// One note and the section it belongs to.
#[derive(Debug, PartialEq, Eq)]
pub struct Note {
    pub section: String,
    pub text: String,
}

impl Clone for Note {
    fn clone(&self) -> (r: Self)
        ensures
            r.section@ == self.section@,
            r.text@ == self.text@,
    {
        Note { section: self.section.clone(), text: self.text.clone() }
    }
}

} // verus!
