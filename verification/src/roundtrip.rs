//! The round trip: the text of a changelog that was read spells that
//! changelog again.
//!
//! The proof has two halves. What the parser reads is canonical: titles,
//! dates, section names and notes are single trimmed lines, versions are
//! well formed, and a heading format goes with a date the way the parser
//! sets them (`lemma_parsed_is_canonical`). And the canonical text of a
//! canonical changelog, read line by line, builds that changelog again
//! (`lemma_canonical_round_trip`). The second half holds of every canonical
//! changelog, also of one that was put together by hand.

use crate::document::{DocumentView, HeaderView, IssueView, ReleaseView};
use crate::grammar::{ParseState, closed_releases, date_of, finish, heading, heading_parts};
use crate::grammar::{initial_state, parse_lines, parse_text, run, step};
use crate::render::{document_lines, header_line, markdown, note_lines, release_lines};
use crate::render::{releases_lines, section_lines, sections_lines, terminated};
use crate::sections::{SectionView, has_section, lemma_position_bounds, lemma_position_is};
use crate::sections::{lemma_with_section_sorted, notes_of, position, sorted_by_name, with_note};
use crate::sections::{lemma_with_section_appends, with_section};
use crate::text::{decimal, find, has_prefix, index_of, is_digit, is_whitespace};
use crate::text::{lemma_decimal_digits, lemma_find_bounds, lemma_find_is, lemma_index_of_bounds};
use crate::text::{lemma_index_of_is, lemma_split_lines_last, lemma_split_lines_step};
use crate::text::{lemma_text_lt_irreflexive, lemma_trim_end_is, lemma_trim_end_shape};
use crate::text::{lemma_trim_is_trimmed, lemma_trim_start_is, lemma_trim_start_shape};
use crate::text::{replace_all, split_lines, strip_prefix, text_lt, trim, trim_end, trim_start};
use crate::version::{VersionView, identifiers_text, is_identifier_char, lemma_spelled};
use crate::version::{lemma_version_of_text, version_of_text};
use vstd::prelude::*;

verus! {

/// Whether a text holds no line feed.
pub open spec fn single_line(s: Seq<char>) -> bool {
    forall|i: int| 0 <= i < s.len() ==> s[i] != '\n'
}

/// Whether a text is not empty and has no whitespace at its ends.
pub open spec fn tight(s: Seq<char>) -> bool {
    s.len() > 0 && !is_whitespace(s[0]) && !is_whitespace(s.last())
}

/// Whether a text is one non-empty line without whitespace at its ends.
pub open spec fn clean(s: Seq<char>) -> bool {
    tight(s) && single_line(s)
}

/// Whether every one of the lines holds no line feed.
pub open spec fn single_lines(lines: Seq<Seq<char>>) -> bool {
    forall|i: int| 0 <= i < lines.len() ==> single_line(#[trigger] lines[i])
}

/// Trimming a tight text changes nothing.
pub proof fn lemma_trim_clean(s: Seq<char>)
    requires
        tight(s),
    ensures
        trim(s) == s,
{
    lemma_trim_is_trimmed(s);
}

/// What is left of one line after trimming is one line, and clean unless
/// it is empty.
pub proof fn lemma_trim_single_line(s: Seq<char>)
    requires
        single_line(s),
    ensures
        single_line(trim(s)),
        trim(s).len() > 0 ==> clean(trim(s)),
{
    lemma_trim_start_shape(s);
    let t = trim_start(s);
    lemma_trim_end_shape(t);
    let u = trim_end(t);
    assert forall|i: int| 0 <= i < u.len() implies u[i] != '\n' by {
        assert(u[i] == t[i]);
        assert(t[i] == s[i + (s.len() - t.len())]);
    }
    if u.len() > 0 {
        assert(u[0] == t[0]);
    }
}

/// A text with a character that is no whitespace is not blank.
pub proof fn lemma_trim_keeps(s: Seq<char>, i: int)
    requires
        0 <= i < s.len(),
        !is_whitespace(s[i]),
    ensures
        trim(s).len() > 0,
{
    lemma_trim_start_shape(s);
    let t = trim_start(s);
    let k = s.len() - t.len();
    assert(k <= i);
    lemma_trim_end_shape(t);
    let u = trim_end(t);
    assert(t[i - k] == s[i]);
    assert(u.len() > i - k);
}

/// Trimming whitespace followed by a tight text leaves that text.
pub proof fn lemma_trim_after_space(w: Seq<char>, s: Seq<char>)
    requires
        tight(s),
        forall|i: int| 0 <= i < w.len() ==> is_whitespace(w[i]),
    ensures
        trim(w + s) == s,
{
    let t = w + s;
    assert forall|i: int| 0 <= i < w.len() implies is_whitespace(t[i]) by {
        assert(t[i] == w[i]);
    }
    assert(t[w.len() as int] == s[0]);
    lemma_trim_start_is(t, w.len() as int);
    assert(t.skip(w.len() as int) =~= s);
    lemma_trim_is_trimmed(s);
    lemma_trim_end_is(s, s.len() as int);
    assert(s.take(s.len() as int) == s);
}

/// The lines of a text hold no line feed.
pub proof fn lemma_split_lines_single(s: Seq<char>)
    ensures
        single_lines(split_lines(s)),
        split_lines(s).len() >= 1,
    decreases s.len(),
{
    lemma_index_of_bounds(s, '\n');
    let i = index_of(s, '\n');
    if i >= s.len() {
        assert(single_line(s));
    } else {
        lemma_split_lines_single(s.skip(i + 1));
        let rest = split_lines(s.skip(i + 1));
        let all = split_lines(s);
        assert forall|k: int| 0 <= k < all.len() implies single_line(#[trigger] all[k]) by {
            if k == 0 {
                assert(all[0] == s.take(i));
            } else {
                assert(all[k] == rest[k - 1]);
            }
        }
    }
}

/// The text of lines starts with the first line and a line feed.
pub proof fn lemma_terminated_front(lines: Seq<Seq<char>>)
    requires
        lines.len() > 0,
    ensures
        terminated(lines) == lines[0] + seq!['\n'] + terminated(lines.skip(1)),
    decreases lines.len(),
{
    if lines.len() == 1 {
        assert(lines.drop_last() =~= Seq::<Seq<char>>::empty());
        assert(lines.skip(1) =~= Seq::<Seq<char>>::empty());
        assert(terminated(lines.drop_last()) =~= Seq::<char>::empty());
        assert(terminated(lines.skip(1)) =~= Seq::<char>::empty());
        assert(lines.last() == lines[0]);
        assert(terminated(lines) =~= lines[0] + seq!['\n']);
        assert(lines[0] + seq!['\n'] + Seq::<char>::empty() =~= lines[0] + seq!['\n']);
    } else {
        let front = lines.drop_last();
        lemma_terminated_front(front);
        assert(front.skip(1) == lines.skip(1).drop_last());
        assert(front[0] == lines[0]);
        assert(lines.skip(1).last() == lines.last());
        assert(terminated(lines) =~= lines[0] + seq!['\n'] + terminated(lines.skip(1)));
    }
}

/// The lines of the text of lines are those lines and an empty one.
pub proof fn lemma_split_terminated(lines: Seq<Seq<char>>)
    requires
        single_lines(lines),
    ensures
        split_lines(terminated(lines)) == lines.push(Seq::<char>::empty()),
    decreases lines.len(),
{
    if lines.len() == 0 {
        lemma_split_lines_last(Seq::<char>::empty());
        assert(seq![Seq::<char>::empty()] =~= lines.push(Seq::<char>::empty()));
    } else {
        lemma_terminated_front(lines);
        let first = lines[0];
        let rest = lines.skip(1);
        let text = terminated(lines);
        assert(single_line(first));
        assert(text[first.len() as int] == '\n');
        assert forall|i: int| 0 <= i < first.len() implies text[i] != '\n' by {
            assert(text[i] == first[i]);
        }
        lemma_split_lines_step(text, first.len() as int);
        assert(text.take(first.len() as int) =~= first);
        assert(text.skip(first.len() as int + 1) =~= terminated(rest));
        assert forall|i: int| 0 <= i < rest.len() implies single_line(#[trigger] rest[i]) by {
            assert(rest[i] == lines[i + 1]);
        }
        lemma_split_terminated(rest);
        assert(seq![first] + rest.push(Seq::<char>::empty()) =~= lines.push(
            Seq::<char>::empty(),
        ));
    }
}

/// Lines of which the last is empty and the one before it ends with a
/// character that is no whitespace.
pub open spec fn ends_open(lines: Seq<Seq<char>>) -> bool {
    lines.len() >= 2 && lines.last().len() == 0 && lines[lines.len() - 2].len() > 0
        && !is_whitespace(lines[lines.len() - 2].last())
}

/// The canonical text of such lines spells exactly those lines.
pub proof fn lemma_split_closed(lines: Seq<Seq<char>>)
    requires
        single_lines(lines),
        ends_open(lines),
    ensures
        split_lines(trim_end(terminated(lines)) + seq!['\n']) == lines,
{
    let body = lines.drop_last();
    let front = body.drop_last();
    let last = body.last();
    let text = terminated(lines);
    assert(last == lines[lines.len() - 2]);
    assert(lines.last() =~= Seq::<char>::empty());
    assert(terminated(body) == terminated(front) + last + seq!['\n']);
    assert(text == terminated(body) + lines.last() + seq!['\n']);
    assert(text =~= terminated(front) + last + seq!['\n'] + seq!['\n']);
    let k = text.len() - 2;
    assert(text[k - 1] == last.last());
    lemma_trim_end_is(text, k);
    assert(text.take(k) + seq!['\n'] =~= terminated(body));
    assert forall|i: int| 0 <= i < body.len() implies single_line(#[trigger] body[i]) by {
        assert(body[i] == lines[i]);
    }
    lemma_split_terminated(body);
    assert(body.push(Seq::<char>::empty()) =~= lines);
}

/// A character that the text of a version can hold.
pub open spec fn plain_char(c: char) -> bool {
    is_identifier_char(c) || c == '.' || c == '+'
}

pub open spec fn all_plain(s: Seq<char>) -> bool {
    forall|i: int| 0 <= i < s.len() ==> plain_char(#[trigger] s[i])
}

proof fn lemma_all_plain_concat(a: Seq<char>, b: Seq<char>)
    requires
        all_plain(a),
        all_plain(b),
    ensures
        all_plain(a + b),
{
    assert forall|i: int| 0 <= i < (a + b).len() implies plain_char(#[trigger] (a + b)[i]) by {
        if i < a.len() {
            assert((a + b)[i] == a[i]);
        } else {
            assert((a + b)[i] == b[i - a.len()]);
        }
    }
}

/// The text of a well-formed version starts with a digit and holds only
/// letters, digits, hyphens, dots and plus signs.
pub proof fn lemma_version_text(v: VersionView)
    requires
        v.well_formed(),
    ensures
        v.text().len() > 0,
        is_digit(v.text()[0]),
        all_plain(v.text()),
{
    let a = decimal(v.major as nat);
    let b = decimal(v.minor as nat);
    let c = decimal(v.patch as nat);
    lemma_decimal_digits(v.major as nat);
    lemma_decimal_digits(v.minor as nat);
    lemma_decimal_digits(v.patch as nat);
    let dot = seq!['.'];
    let pre = if v.pre.len() > 0 {
        seq!['-'] + v.pre
    } else {
        Seq::<char>::empty()
    };
    let build = if v.build.len() > 0 {
        seq!['+'] + v.build
    } else {
        Seq::<char>::empty()
    };
    assert(all_plain(a));
    assert(all_plain(b));
    assert(all_plain(c));
    assert(all_plain(dot));
    assert(all_plain(pre)) by {
        if v.pre.len() > 0 {
            assert(all_plain(seq!['-']));
            assert(all_plain(v.pre));
            lemma_all_plain_concat(seq!['-'], v.pre);
        }
    }
    assert(all_plain(build)) by {
        if v.build.len() > 0 {
            assert(all_plain(seq!['+']));
            assert(all_plain(v.build));
            lemma_all_plain_concat(seq!['+'], v.build);
        }
    }
    lemma_all_plain_concat(pre, build);
    lemma_all_plain_concat(a, dot);
    lemma_all_plain_concat(a + dot, b);
    lemma_all_plain_concat(a + dot + b, dot);
    lemma_all_plain_concat(a + dot + b + dot, c);
    lemma_all_plain_concat(a + dot + b + dot + c, pre + build);
    assert(identifiers_text(v.pre, v.build) == pre + build);
    assert(v.text() == a + dot + b + dot + c + (pre + build));
    assert(v.text()[0] == a[0]);
}

/// The version text of a canonical release: it spells the version, and it
/// is made of characters that are no whitespace, bracket, brace or line
/// feed.
proof fn lemma_release_version(r: ReleaseView)
    requires
        r.version.well_formed(),
    ensures
        version_of_text(r.version.text()) == Some(r.version),
        r.version.text().len() > 0,
        is_digit(r.version.text()[0]),
        all_plain(r.version.text()),
        forall|i: int|
            0 <= i < r.version.text().len() ==> {
                let c = #[trigger] r.version.text()[i];
                !is_whitespace(c) && c != '[' && c != ']' && c != '{' && c != '\n'
            },
{
    lemma_version_of_text(r.version);
    lemma_version_text(r.version);
    let v = r.version.text();
    assert forall|i: int| 0 <= i < v.len() implies {
        let c = #[trigger] v[i];
        !is_whitespace(c) && c != '[' && c != ']' && c != '{' && c != '\n'
    } by {
        lemma_plain_not_special(v[i]);
    }
}

/// Whether the heading format of a release agrees with its date the way
/// the parser sets them: a date under the default and the plain heading,
/// none under the heading of the version alone, and none under the one
/// custom heading that the parser knows.
pub open spec fn header_agrees(r: ReleaseView) -> bool {
    match r.header {
        HeaderView::Default => r.date is Some,
        HeaderView::Plain => r.date is Some,
        HeaderView::VersionOnly => r.date is None,
        HeaderView::Custom(t) => t == "## {version}"@ && r.date is None,
    }
}

/// Whether the sections are sorted by name and all names and notes are
/// clean.
pub open spec fn sections_clean(ss: Seq<SectionView>) -> bool {
    &&& sorted_by_name(ss)
    &&& forall|i: int| 0 <= i < ss.len() ==> clean(#[trigger] ss[i].name)
    &&& forall|i: int, j: int|
        0 <= i < ss.len() && 0 <= j < ss[i].notes.len() ==> clean(#[trigger] ss[i].notes[j])
}

/// Whether a release is as the parser makes them: its version is well
/// formed, its date is clean, its heading agrees with its date, and its
/// sections are clean.
pub open spec fn canonical_release(r: ReleaseView) -> bool {
    &&& r.version.well_formed()
    &&& r.date matches Some(d) ==> clean(d)
    &&& header_agrees(r)
    &&& sections_clean(r.sections)
}

/// The release without its sections.
pub open spec fn bare(r: ReleaseView) -> ReleaseView {
    ReleaseView { sections: Seq::empty(), ..r }
}

proof fn lemma_plain_not_special(c: char)
    requires
        plain_char(c),
    ensures
        !is_whitespace(c),
        c != ' ',
        c != '[',
        c != ']',
        c != '{',
        c != '\n',
        c != '#',
{
}

/// The heading with the version in brackets and a date is read back.
proof fn lemma_heading_default(r: ReleaseView, number: nat)
    requires
        canonical_release(r),
        r.header == HeaderView::Default,
    ensures
        tight(header_line(r)),
        single_line(header_line(r)),
        has_prefix(header_line(r), "## "@),
        heading(header_line(r), number) == Ok::<ReleaseView, IssueView>(bare(r)),
{
    reveal_strlit("## [");
    reveal_strlit("] - ");
    reveal_strlit("## ");
    let v = r.version.text();
    let d = r.date->0;
    lemma_release_version(r);
    let h = header_line(r);
    assert(h == "## ["@ + v + "] - "@ + d);
    assert forall|i: int| 0 <= i < v.len() implies !is_whitespace(v[i]) && v[i] != ']' && v[i]
        != '\n' by {
        lemma_plain_not_special(v[i]);
    }
    assert(h.len() == 4 + v.len() + 4 + d.len());
    assert(h[0] == '#');
    assert(h.last() == d.last());
    assert forall|i: int| 0 <= i < h.len() implies h[i] != '\n' by {
        if i < 4 {
        } else if i < 4 + v.len() {
            assert(h[i] == v[i - 4]);
        } else if i < 8 + v.len() {
        } else {
            assert(h[i] == d[i - 8 - v.len()]);
        }
    }
    assert(h.take(3) =~= "## "@);
    let rest = seq!['['] + v + "] - "@ + d;
    assert(h.skip(3) =~= rest);
    assert(strip_prefix(h, "## "@) == rest);
    assert(rest[0] == '[');
    assert(rest.last() == d.last());
    lemma_trim_clean(rest);
    let close: int = v.len() as int + 1;
    assert forall|i: int| 0 <= i < close implies rest[i] != ']' by {
        if i > 0 {
            assert(rest[i] == v[i - 1]);
        }
    }
    assert(rest[close] == ']');
    lemma_index_of_is(rest, ']', close);
    assert(rest.subrange(1, close) =~= v);
    let tail = seq!['-', ' '] + d;
    assert(rest.skip(close + 1) =~= seq![' '] + tail);
    assert(tail[0] == '-');
    assert(tail.last() == d.last());
    lemma_trim_after_space(seq![' '], tail);
    assert(tail.skip(1) =~= seq![' '] + d);
    lemma_trim_after_space(seq![' '], d);
    assert(date_of(tail.skip(1)) == Some(d));
    assert(heading_parts(rest, number) == Ok::<
        (Seq<char>, Option<Seq<char>>, HeaderView),
        IssueView,
    >((v, Some(d), HeaderView::Default)));
}

/// The heading with the version in brackets and no date is read back.
proof fn lemma_heading_version_only(r: ReleaseView, number: nat)
    requires
        canonical_release(r),
        r.header == HeaderView::VersionOnly,
    ensures
        tight(header_line(r)),
        single_line(header_line(r)),
        has_prefix(header_line(r), "## "@),
        heading(header_line(r), number) == Ok::<ReleaseView, IssueView>(bare(r)),
{
    reveal_strlit("## [");
    reveal_strlit("]");
    reveal_strlit("## ");
    let v = r.version.text();
    lemma_release_version(r);
    let h = header_line(r);
    assert(h == "## ["@ + v + "]"@);
    assert forall|i: int| 0 <= i < v.len() implies !is_whitespace(v[i]) && v[i] != ']' && v[i]
        != '\n' by {
        lemma_plain_not_special(v[i]);
    }
    assert(h.len() == 4 + v.len() + 1);
    assert(h[0] == '#');
    assert(h.last() == ']');
    assert forall|i: int| 0 <= i < h.len() implies h[i] != '\n' by {
        if 4 <= i < 4 + v.len() {
            assert(h[i] == v[i - 4]);
        }
    }
    assert(h.take(3) =~= "## "@);
    let rest = seq!['['] + v + seq![']'];
    assert(h.skip(3) =~= rest);
    assert(strip_prefix(h, "## "@) == rest);
    assert(rest[0] == '[');
    assert(rest.last() == ']');
    lemma_trim_clean(rest);
    let close: int = v.len() as int + 1;
    assert forall|i: int| 0 <= i < close implies rest[i] != ']' by {
        if i > 0 {
            assert(rest[i] == v[i - 1]);
        }
    }
    assert(rest[close] == ']');
    lemma_index_of_is(rest, ']', close);
    assert(rest.subrange(1, close) =~= v);
    assert(rest.skip(close + 1) =~= Seq::<char>::empty());
    assert(trim(Seq::<char>::empty()) =~= Seq::<char>::empty());
    assert(heading_parts(rest, number) == Ok::<
        (Seq<char>, Option<Seq<char>>, HeaderView),
        IssueView,
    >((v, None, HeaderView::VersionOnly)));
}

/// A text of plain characters holds no ` - `.
proof fn lemma_no_dash_in_plain(v: Seq<char>, tail: Seq<char>, i: int)
    requires
        all_plain(v),
        0 <= i < v.len(),
    ensures
        !has_prefix((v + tail).skip(i), " - "@),
{
    reveal_strlit(" - ");
    let s = (v + tail).skip(i);
    lemma_plain_not_special(v[i]);
    assert(s[0] == v[i]);
    if has_prefix(s, " - "@) {
        assert(s.take(3)[0] == ' ');
    }
}

/// The heading with the bare version and a date is read back.
proof fn lemma_heading_plain(r: ReleaseView, number: nat)
    requires
        canonical_release(r),
        r.header == HeaderView::Plain,
    ensures
        tight(header_line(r)),
        single_line(header_line(r)),
        has_prefix(header_line(r), "## "@),
        heading(header_line(r), number) == Ok::<ReleaseView, IssueView>(bare(r)),
{
    reveal_strlit("## ");
    reveal_strlit(" - ");
    let v = r.version.text();
    let d = r.date->0;
    lemma_release_version(r);
    let h = header_line(r);
    assert(h == "## "@ + v + " - "@ + d);
    assert forall|i: int| 0 <= i < v.len() implies !is_whitespace(v[i]) && v[i] != '[' && v[i]
        != '\n' by {
        lemma_plain_not_special(v[i]);
    }
    assert(h.len() == 3 + v.len() + 3 + d.len());
    assert(h[0] == '#');
    assert(h.last() == d.last());
    assert forall|i: int| 0 <= i < h.len() implies h[i] != '\n' by {
        if i < 3 {
        } else if i < 3 + v.len() {
            assert(h[i] == v[i - 3]);
        } else if i < 6 + v.len() {
        } else {
            assert(h[i] == d[i - 6 - v.len()]);
        }
    }
    assert(h.take(3) =~= "## "@);
    let tail = " - "@ + d;
    let rest = v + tail;
    assert(h.skip(3) =~= rest);
    assert(strip_prefix(h, "## "@) == rest);
    assert(rest[0] == v[0]);
    assert(rest.last() == d.last());
    lemma_trim_clean(rest);
    let at = v.len() as int;
    assert forall|i: int| 0 <= i < at implies !has_prefix(rest.skip(i), " - "@) by {
        lemma_no_dash_in_plain(v, tail, i);
    }
    assert(rest.skip(at) =~= tail);
    assert(tail.take(3) =~= " - "@);
    lemma_find_is(rest, " - "@, at);
    assert(rest.take(at) =~= v);
    assert(v.last() == v[v.len() - 1]);
    lemma_trim_clean(v);
    assert(rest.skip(at + " - "@.len()) =~= d);
    lemma_trim_clean(d);
    assert(date_of(d) == Some(d));
    assert(heading_parts(rest, number) == Ok::<
        (Seq<char>, Option<Seq<char>>, HeaderView),
        IssueView,
    >((v, Some(d), HeaderView::Plain)));
}

/// Replacing in a text that holds no first character of the pattern
/// changes nothing.
proof fn lemma_replace_all_absent(s: Seq<char>, p: Seq<char>, to: Seq<char>)
    requires
        p.len() > 0,
        forall|i: int| 0 <= i < s.len() ==> s[i] != p[0],
    ensures
        replace_all(s, p, to) == s,
    decreases s.len(),
{
    if s.len() > 0 {
        if has_prefix(s, p) {
            assert(s.take(p.len() as int)[0] == p[0]);
        }
        assert forall|i: int| 0 <= i < s.skip(1).len() implies s.skip(1)[i] != p[0] by {
            assert(s.skip(1)[i] == s[i + 1]);
        }
        lemma_replace_all_absent(s.skip(1), p, to);
        assert(seq![s[0]] + s.skip(1) =~= s);
    }
}

/// The custom heading that the parser knows is read back.
proof fn lemma_heading_custom(r: ReleaseView, number: nat)
    requires
        canonical_release(r),
        r.header == HeaderView::Custom("## {version}"@),
    ensures
        tight(header_line(r)),
        single_line(header_line(r)),
        has_prefix(header_line(r), "## "@),
        heading(header_line(r), number) == Ok::<ReleaseView, IssueView>(bare(r)),
{
    reveal_strlit("## ");
    reveal_strlit("## {version}");
    reveal_strlit("{version}");
    reveal_strlit("{date}");
    reveal_strlit(" - ");
    let v = r.version.text();
    lemma_release_version(r);
    let t = "## {version}"@;
    let p = "{version}"@;
    let none = Seq::<char>::empty();
    assert forall|i: int| 0 <= i < v.len() implies !is_whitespace(v[i]) && v[i] != '[' && v[i]
        != '\n' && v[i] != '{' by {
        lemma_plain_not_special(v[i]);
    }
    // The template is three characters and the pattern.
    let t1 = t.skip(1);
    let t2 = t1.skip(1);
    let t3 = t2.skip(1);
    assert(t3 =~= p);
    assert(!has_prefix(t, p)) by {
        if has_prefix(t, p) {
            assert(t.take(9)[0] == p[0]);
        }
    }
    assert(!has_prefix(t1, p)) by {
        if has_prefix(t1, p) {
            assert(t1.take(9)[0] == p[0]);
        }
    }
    assert(!has_prefix(t2, p)) by {
        if has_prefix(t2, p) {
            assert(t2.take(9)[0] == p[0]);
        }
    }
    assert(has_prefix(t3, p)) by {
        assert(t3.take(9) =~= p);
    }
    assert(t3.skip(9) =~= none);
    assert(replace_all(none, p, v) =~= none);
    assert(replace_all(t3, p, v) =~= v);
    assert(replace_all(t2, p, v) =~= seq![' '] + v);
    assert(replace_all(t1, p, v) =~= seq!['#', ' '] + v);
    assert(replace_all(t, p, v) =~= seq!['#', '#', ' '] + v);
    let h0 = "## "@ + v;
    assert(h0 =~= seq!['#', '#', ' '] + v);
    assert forall|i: int| 0 <= i < h0.len() implies h0[i] != "{date}"@[0] by {
        if i >= 3 {
            assert(h0[i] == v[i - 3]);
        }
    }
    lemma_replace_all_absent(h0, "{date}"@, none);
    let h = header_line(r);
    assert(h == h0);
    assert(h[0] == '#');
    assert(h.last() == v.last());
    assert forall|i: int| 0 <= i < h.len() implies h[i] != '\n' by {
        if i >= 3 {
            assert(h[i] == v[i - 3]);
        }
    }
    assert(h.take(3) =~= "## "@);
    assert(h.skip(3) =~= v);
    assert(strip_prefix(h, "## "@) == v);
    lemma_trim_clean(v);
    assert forall|i: int| 0 <= i < v.len() implies !has_prefix(v.skip(i), " - "@) by {
        lemma_no_dash_in_plain(v, none, i);
        assert(v + none =~= v);
    }
    lemma_find_is(v, " - "@, v.len() as int);
    assert(heading_parts(v, number) == Ok::<
        (Seq<char>, Option<Seq<char>>, HeaderView),
        IssueView,
    >((v, None, HeaderView::Custom("## {version}"@))));
}

/// The heading line of a canonical release is one tight line that starts
/// a release, and it is read back as that release without its sections.
pub proof fn lemma_heading_round_trip(r: ReleaseView, number: nat)
    requires
        canonical_release(r),
    ensures
        tight(header_line(r)),
        single_line(header_line(r)),
        has_prefix(header_line(r), "## "@),
        heading(header_line(r), number) == Ok::<ReleaseView, IssueView>(bare(r)),
{
    match r.header {
        HeaderView::Default => lemma_heading_default(r, number),
        HeaderView::Plain => lemma_heading_plain(r, number),
        HeaderView::VersionOnly => lemma_heading_version_only(r, number),
        HeaderView::Custom(_) => lemma_heading_custom(r, number),
    }
}

/// The state after one more line, whatever its number, or `None` if the
/// line has an issue.
pub open spec fn fed(s: ParseState, line: Seq<char>) -> Option<ParseState> {
    match step(s, line, 0) {
        Ok(next) => Some(next),
        Err(_) => None,
    }
}

/// The state after the lines, or `None` if one of them has an issue.
pub open spec fn advance(s: ParseState, lines: Seq<Seq<char>>) -> Option<ParseState>
    decreases lines.len(),
{
    if lines.len() == 0 {
        Some(s)
    } else {
        match fed(s, lines[0]) {
            Some(next) => advance(next, lines.skip(1)),
            None => None,
        }
    }
}

/// Where a line is accepted, its number does not matter.
proof fn lemma_step_any_number(s: ParseState, raw: Seq<char>, n: nat, m: nat)
    requires
        step(s, raw, n) is Ok,
    ensures
        step(s, raw, m) == step(s, raw, n),
{
}

/// Lines that are accepted without their numbers are accepted with them.
proof fn lemma_run_advance(s: ParseState, lines: Seq<Seq<char>>, from: int)
    requires
        0 <= from <= lines.len(),
        advance(s, lines.skip(from)) is Some,
    ensures
        run(s, lines, from) == Ok::<ParseState, IssueView>(advance(s, lines.skip(from))->0),
    decreases lines.len() - from,
{
    let rest = lines.skip(from);
    if from < lines.len() {
        assert(rest[0] == lines[from]);
        assert(rest.skip(1) == lines.skip(from + 1));
        let next = fed(s, lines[from])->0;
        lemma_step_any_number(s, lines[from], 0, (from + 1) as nat);
        lemma_run_advance(next, lines, from + 1);
    }
}

/// Reading two lists of lines one after the other is reading them as one.
proof fn lemma_advance_concat(s: ParseState, a: Seq<Seq<char>>, b: Seq<Seq<char>>)
    ensures
        advance(s, a + b) == (match advance(s, a) {
            Some(m) => advance(m, b),
            None => None,
        }),
    decreases a.len(),
{
    if a.len() == 0 {
        assert(a + b =~= b);
    } else {
        assert((a + b)[0] == a[0]);
        assert((a + b).skip(1) =~= a.skip(1) + b);
        match fed(s, a[0]) {
            Some(next) => lemma_advance_concat(next, a.skip(1), b),
            None => {},
        }
    }
}

proof fn lemma_advance_one(s: ParseState, line: Seq<char>)
    ensures
        advance(s, seq![line]) == fed(s, line),
{
    let lines = seq![line];
    assert(lines[0] == line);
    assert(lines.skip(1) =~= Seq::<Seq<char>>::empty());
    match fed(s, line) {
        Some(next) => {
            assert(advance(next, lines.skip(1)) == Some(next));
        },
        None => {},
    }
}

proof fn lemma_advance_push(s: ParseState, a: Seq<Seq<char>>, line: Seq<char>)
    ensures
        advance(s, a.push(line)) == (match advance(s, a) {
            Some(m) => fed(m, line),
            None => None,
        }),
{
    assert(a.push(line) =~= a + seq![line]);
    lemma_advance_concat(s, a, seq![line]);
    match advance(s, a) {
        Some(m) => lemma_advance_one(m, line),
        None => {},
    }
}

/// An empty line changes nothing.
proof fn lemma_fed_blank(s: ParseState)
    ensures
        fed(s, Seq::<char>::empty()) == Some(s),
{
    assert(trim(Seq::<char>::empty()) =~= Seq::<char>::empty());
}

/// The line of a title is read as that title.
proof fn lemma_title_line(s: ParseState, title: Seq<char>)
    requires
        s.title is None,
        clean(title),
    ensures
        tight("# "@ + title),
        single_line("# "@ + title),
        fed(s, "# "@ + title) == Some(ParseState { title: Some(title), ..s }),
{
    reveal_strlit("# ");
    let line = "# "@ + title;
    assert(line[0] == '#');
    assert(line.last() == title.last());
    assert forall|i: int| 0 <= i < line.len() implies line[i] != '\n' by {
        if i >= 2 {
            assert(line[i] == title[i - 2]);
        }
    }
    lemma_trim_clean(line);
    assert(line.take(2) =~= "# "@);
    assert(line.skip(2) =~= title);
    lemma_trim_clean(title);
}

/// What the line of a section heading is to the parser.
proof fn lemma_section_line(name: Seq<char>)
    requires
        clean(name),
    ensures
        tight("### "@ + name),
        single_line("### "@ + name),
        trim("### "@ + name) == "### "@ + name,
        !has_prefix("### "@ + name, "## "@),
        has_prefix("### "@ + name, "### "@),
        trim(strip_prefix("### "@ + name, "### "@)) == name,
{
    reveal_strlit("### ");
    reveal_strlit("## ");
    let line = "### "@ + name;
    assert(line[0] == '#');
    assert(line.last() == name.last());
    assert forall|i: int| 0 <= i < line.len() implies line[i] != '\n' by {
        if i >= 4 {
            assert(line[i] == name[i - 4]);
        }
    }
    lemma_trim_clean(line);
    assert(line.take(4) =~= "### "@);
    assert(line.skip(4) =~= name);
    lemma_trim_clean(name);
    if has_prefix(line, "## "@) {
        assert(line.take(3)[2] == ' ');
    }
}

/// What the line of a note is to the parser.
proof fn lemma_note_line(note: Seq<char>)
    requires
        clean(note),
    ensures
        tight("- "@ + note),
        single_line("- "@ + note),
        trim("- "@ + note) == "- "@ + note,
        !has_prefix("- "@ + note, "## "@),
        !has_prefix("- "@ + note, "### "@),
        has_prefix("- "@ + note, "- "@),
        trim(strip_prefix("- "@ + note, "- "@)) == note,
{
    reveal_strlit("### ");
    reveal_strlit("## ");
    reveal_strlit("- ");
    let line = "- "@ + note;
    assert(line[0] == '-');
    assert(line.last() == note.last());
    assert forall|i: int| 0 <= i < line.len() implies line[i] != '\n' by {
        if i >= 2 {
            assert(line[i] == note[i - 2]);
        }
    }
    lemma_trim_clean(line);
    assert(line.take(2) =~= "- "@);
    assert(line.skip(2) =~= note);
    lemma_trim_clean(note);
    if has_prefix(line, "## "@) {
        assert(line.take(3)[0] == '#');
    }
    if has_prefix(line, "### "@) {
        assert(line.take(4)[0] == '#');
    }
}

/// The state whose open release has other sections and whose current
/// section is `name`.
pub open spec fn in_section(s: ParseState, sections: Seq<SectionView>, name: Seq<char>) -> ParseState {
    ParseState {
        open: Some(ReleaseView { sections, ..s.open->0 }),
        section: Some(name),
        ..s
    }
}

/// Reading the notes of a section appends them to it.
proof fn lemma_read_notes(
    s: ParseState,
    base: Seq<SectionView>,
    name: Seq<char>,
    notes: Seq<Seq<char>>,
    j: int,
)
    requires
        s.title is Some,
        s.open is Some,
        0 <= j <= notes.len(),
        forall|i: int| 0 <= i < base.len() ==> text_lt(#[trigger] base[i].name, name),
        forall|i: int| 0 <= i < notes.len() ==> clean(#[trigger] notes[i]),
    ensures
        advance(
            in_section(s, base.push(SectionView { name, notes: Seq::empty() }), name),
            note_lines(notes).take(j),
        ) == Some(in_section(s, base.push(SectionView { name, notes: notes.take(j) }), name)),
    decreases j,
{
    let start = in_section(s, base.push(SectionView { name, notes: Seq::empty() }), name);
    if j == 0 {
        assert(note_lines(notes).take(0) =~= Seq::<Seq<char>>::empty());
        assert(notes.take(0) =~= Seq::<Seq<char>>::empty());
    } else {
        lemma_read_notes(s, base, name, notes, j - 1);
        let before = in_section(s, base.push(SectionView { name, notes: notes.take(j - 1) }), name);
        let note = notes[j - 1];
        let line = "- "@ + note;
        assert(note_lines(notes).take(j) =~= note_lines(notes).take(j - 1).push(line));
        lemma_advance_push(start, note_lines(notes).take(j - 1), line);
        lemma_note_line(note);
        let cur = base.push(SectionView { name, notes: notes.take(j - 1) });
        lemma_text_lt_irreflexive(name);
        assert forall|i: int| 0 <= i < base.len() implies text_lt(#[trigger] cur[i].name, name) by {
            assert(cur[i] == base[i]);
        }
        assert(cur[base.len() as int].name == name);
        lemma_position_is(cur, name, base.len() as int);
        assert(has_section(cur, name));
        assert(notes_of(cur, name) == notes.take(j - 1));
        assert(notes.take(j - 1).push(note) =~= notes.take(j));
        assert(with_note(cur, name, note) =~= base.push(
            SectionView { name, notes: notes.take(j) },
        ));
        assert(line.len() > 0);
    }
}

/// Reading the lines of a section whose name comes after those that the
/// open release has appends the section to them.
proof fn lemma_read_section(s: ParseState, sec: SectionView)
    requires
        s.title is Some,
        s.open is Some,
        forall|i: int|
            0 <= i < s.open->0.sections.len() ==> text_lt(
                #[trigger] s.open->0.sections[i].name,
                sec.name,
            ),
        clean(sec.name),
        forall|i: int| 0 <= i < sec.notes.len() ==> clean(#[trigger] sec.notes[i]),
    ensures
        advance(s, section_lines(sec)) == Some(
            in_section(s, s.open->0.sections.push(sec), sec.name),
        ),
{
    let base = s.open->0.sections;
    let name = sec.name;
    let heading_line = "### "@ + name;
    lemma_section_line(name);
    lemma_position_is(base, name, base.len() as int);
    assert(!has_section(base, name));
    lemma_with_section_appends(base, name, Seq::<Seq<char>>::empty());
    let opened = in_section(s, base.push(SectionView { name, notes: Seq::empty() }), name);
    assert(fed(s, heading_line) == Some(opened));
    lemma_advance_one(s, heading_line);
    lemma_read_notes(s, base, name, sec.notes, sec.notes.len() as int);
    assert(note_lines(sec.notes).take(sec.notes.len() as int) == note_lines(sec.notes));
    assert(sec.notes.take(sec.notes.len() as int) == sec.notes);
    let filled = in_section(s, base.push(sec), name);
    lemma_advance_concat(s, seq![heading_line], note_lines(sec.notes));
    lemma_fed_blank(filled);
    lemma_advance_push(s, seq![heading_line] + note_lines(sec.notes), Seq::<char>::empty());
    assert(section_lines(sec) =~= (seq![heading_line] + note_lines(sec.notes)).push(
        Seq::<char>::empty(),
    ));
}

/// The section to which notes go after the sections have been read.
pub open spec fn last_section(s: ParseState, ss: Seq<SectionView>) -> Option<Seq<char>> {
    if ss.len() > 0 {
        Some(ss.last().name)
    } else {
        s.section
    }
}

/// Reading the lines of clean sections into a release without sections
/// gives the release those sections.
proof fn lemma_read_sections(s: ParseState, ss: Seq<SectionView>)
    requires
        s.title is Some,
        s.open is Some,
        s.open->0.sections.len() == 0,
        sections_clean(ss),
    ensures
        advance(s, sections_lines(ss)) == Some(
            ParseState {
                open: Some(ReleaseView { sections: ss, ..s.open->0 }),
                section: last_section(s, ss),
                ..s
            },
        ),
    decreases ss.len(),
{
    if ss.len() == 0 {
        assert(s.open->0.sections =~= ss);
    } else {
        let front = ss.drop_last();
        let sec = ss.last();
        assert forall|i: int, j: int| 0 <= i < j < front.len() implies text_lt(
            front[i].name,
            front[j].name,
        ) by {
            assert(front[i] == ss[i] && front[j] == ss[j]);
        }
        assert forall|i: int| 0 <= i < front.len() implies clean(#[trigger] front[i].name) by {
            assert(front[i] == ss[i]);
        }
        assert forall|i: int, j: int|
            0 <= i < front.len() && 0 <= j < front[i].notes.len() implies clean(
            #[trigger] front[i].notes[j],
        ) by {
            assert(front[i] == ss[i]);
        }
        lemma_read_sections(s, front);
        let mid = ParseState {
            open: Some(ReleaseView { sections: front, ..s.open->0 }),
            section: last_section(s, front),
            ..s
        };
        assert forall|i: int| 0 <= i < front.len() implies text_lt(
            #[trigger] front[i].name,
            sec.name,
        ) by {
            assert(front[i] == ss[i]);
        }
        assert(clean(sec.name)) by {
            assert(sec == ss[ss.len() - 1]);
        }
        assert forall|i: int| 0 <= i < sec.notes.len() implies clean(#[trigger] sec.notes[i]) by {
            assert(sec == ss[ss.len() - 1]);
            assert(clean(ss[ss.len() - 1].notes[i]));
        }
        lemma_read_section(mid, sec);
        lemma_advance_concat(s, sections_lines(front), section_lines(sec));
        assert(front.push(sec) =~= ss);
    }
}

/// Reading the lines of a canonical release closes the release that was
/// open and leaves this one open.
proof fn lemma_read_release(s: ParseState, r: ReleaseView)
    requires
        s.title is Some,
        canonical_release(r),
    ensures
        advance(s, release_lines(r)) is Some,
        advance(s, release_lines(r))->0.title == s.title,
        advance(s, release_lines(r))->0.done == closed_releases(s),
        advance(s, release_lines(r))->0.open == Some(r),
{
    let h = header_line(r);
    lemma_heading_round_trip(r, 0);
    lemma_trim_clean(h);
    let opened = ParseState {
        title: s.title,
        done: closed_releases(s),
        open: Some(bare(r)),
        section: None,
    };
    assert(fed(s, h) == Some(opened));
    lemma_fed_blank(opened);
    let head = seq![h, Seq::<char>::empty()];
    assert(head =~= seq![h].push(Seq::<char>::empty()));
    lemma_advance_one(s, h);
    lemma_advance_push(s, seq![h], Seq::<char>::empty());
    assert(advance(s, head) == Some(opened));
    lemma_read_sections(opened, r.sections);
    lemma_advance_concat(s, head, sections_lines(r.sections));
    assert(ReleaseView { sections: r.sections, ..bare(r) } == r);
}

/// Reading the lines of canonical releases adds them to the complete
/// releases, once the last one is closed.
proof fn lemma_read_releases(s: ParseState, rs: Seq<ReleaseView>)
    requires
        s.title is Some,
        forall|i: int| 0 <= i < rs.len() ==> canonical_release(#[trigger] rs[i]),
    ensures
        advance(s, releases_lines(rs)) is Some,
        advance(s, releases_lines(rs))->0.title == s.title,
        closed_releases(advance(s, releases_lines(rs))->0) == closed_releases(s) + rs,
    decreases rs.len(),
{
    if rs.len() == 0 {
        assert(closed_releases(s) + rs =~= closed_releases(s));
    } else {
        let front = rs.drop_last();
        assert forall|i: int| 0 <= i < front.len() implies canonical_release(
            #[trigger] front[i],
        ) by {
            assert(front[i] == rs[i]);
        }
        lemma_read_releases(s, front);
        let mid = advance(s, releases_lines(front))->0;
        assert(canonical_release(rs.last())) by {
            assert(rs.last() == rs[rs.len() - 1]);
        }
        lemma_read_release(mid, rs.last());
        lemma_advance_concat(s, releases_lines(front), release_lines(rs.last()));
        assert((closed_releases(s) + front).push(rs.last()) =~= closed_releases(s) + rs);
    }
}

/// Whether a changelog is as the parser makes them: its title is clean
/// and its releases are canonical.
pub open spec fn canonical(d: DocumentView) -> bool {
    &&& clean(d.title)
    &&& forall|i: int| 0 <= i < d.releases.len() ==> canonical_release(#[trigger] d.releases[i])
}

/// The lines of a canonical changelog spell it.
pub proof fn lemma_lines_round_trip(d: DocumentView)
    requires
        canonical(d),
    ensures
        parse_lines(document_lines(d)) == Ok::<DocumentView, IssueView>(d),
{
    let s0 = initial_state();
    let title_line = "# "@ + d.title;
    lemma_title_line(s0, d.title);
    let titled = ParseState { title: Some(d.title), ..s0 };
    lemma_fed_blank(titled);
    let head = seq![title_line, Seq::<char>::empty()];
    assert(head =~= seq![title_line].push(Seq::<char>::empty()));
    lemma_advance_one(s0, title_line);
    lemma_advance_push(s0, seq![title_line], Seq::<char>::empty());
    lemma_read_releases(titled, d.releases);
    lemma_advance_concat(s0, head, releases_lines(d.releases));
    let lines = document_lines(d);
    let end = advance(s0, lines)->0;
    assert(closed_releases(titled) + d.releases =~= d.releases);
    assert(lines.skip(0) == lines);
    lemma_run_advance(s0, lines, 0);
    assert(finish(end) == Ok::<DocumentView, IssueView>(d));
}

proof fn lemma_shape_concat(a: Seq<Seq<char>>, b: Seq<Seq<char>>)
    requires
        single_lines(a),
        single_lines(b),
    ensures
        single_lines(a + b),
        ends_open(b) ==> ends_open(a + b),
{
    let all = a + b;
    assert forall|i: int| 0 <= i < all.len() implies single_line(#[trigger] all[i]) by {
        if i < a.len() {
            assert(all[i] == a[i]);
        } else {
            assert(all[i] == b[i - a.len()]);
        }
    }
    if ends_open(b) {
        assert(all.last() == b.last());
        assert(all[all.len() - 2] == b[b.len() - 2]);
    }
}

/// The lines of a clean section hold no line feed, and they end with an
/// empty line behind a tight one.
proof fn lemma_section_lines_shape(sec: SectionView)
    requires
        clean(sec.name),
        forall|i: int| 0 <= i < sec.notes.len() ==> clean(#[trigger] sec.notes[i]),
    ensures
        single_lines(section_lines(sec)),
        ends_open(section_lines(sec)),
{
    let lines = section_lines(sec);
    let n = sec.notes.len() as int;
    lemma_section_line(sec.name);
    assert(lines.len() == n + 2);
    assert(lines[0] == "### "@ + sec.name);
    assert(lines[n + 1] =~= Seq::<char>::empty());
    assert forall|i: int| 0 <= i < lines.len() implies single_line(#[trigger] lines[i]) by {
        if 1 <= i <= n {
            assert(lines[i] == "- "@ + sec.notes[i - 1]);
            lemma_note_line(sec.notes[i - 1]);
        }
    }
    if n > 0 {
        assert(lines[n] == "- "@ + sec.notes[n - 1]);
        lemma_note_line(sec.notes[n - 1]);
    }
}

proof fn lemma_sections_lines_shape(ss: Seq<SectionView>)
    requires
        sections_clean(ss),
    ensures
        single_lines(sections_lines(ss)),
        ss.len() > 0 ==> ends_open(sections_lines(ss)),
    decreases ss.len(),
{
    if ss.len() > 0 {
        let front = ss.drop_last();
        let sec = ss.last();
        assert(sec == ss[ss.len() - 1]);
        assert forall|i: int, j: int| 0 <= i < j < front.len() implies text_lt(
            front[i].name,
            front[j].name,
        ) by {
            assert(front[i] == ss[i] && front[j] == ss[j]);
        }
        assert forall|i: int| 0 <= i < front.len() implies clean(#[trigger] front[i].name) by {
            assert(front[i] == ss[i]);
        }
        assert forall|i: int, j: int|
            0 <= i < front.len() && 0 <= j < front[i].notes.len() implies clean(
            #[trigger] front[i].notes[j],
        ) by {
            assert(front[i] == ss[i]);
        }
        lemma_sections_lines_shape(front);
        assert forall|i: int| 0 <= i < sec.notes.len() implies clean(#[trigger] sec.notes[i]) by {
            assert(clean(ss[ss.len() - 1].notes[i]));
        }
        lemma_section_lines_shape(sec);
        lemma_shape_concat(sections_lines(front), section_lines(sec));
    }
}

proof fn lemma_release_lines_shape(r: ReleaseView)
    requires
        canonical_release(r),
    ensures
        single_lines(release_lines(r)),
        ends_open(release_lines(r)),
{
    lemma_heading_round_trip(r, 0);
    let head = seq![header_line(r), Seq::<char>::empty()];
    lemma_sections_lines_shape(r.sections);
    assert(single_lines(head));
    assert(ends_open(head));
    lemma_shape_concat(head, sections_lines(r.sections));
    if r.sections.len() == 0 {
        assert(release_lines(r) =~= head);
    }
}

proof fn lemma_releases_lines_shape(rs: Seq<ReleaseView>)
    requires
        forall|i: int| 0 <= i < rs.len() ==> canonical_release(#[trigger] rs[i]),
    ensures
        single_lines(releases_lines(rs)),
        rs.len() > 0 ==> ends_open(releases_lines(rs)),
    decreases rs.len(),
{
    if rs.len() > 0 {
        let front = rs.drop_last();
        assert forall|i: int| 0 <= i < front.len() implies canonical_release(
            #[trigger] front[i],
        ) by {
            assert(front[i] == rs[i]);
        }
        lemma_releases_lines_shape(front);
        assert(rs.last() == rs[rs.len() - 1]);
        lemma_release_lines_shape(rs.last());
        lemma_shape_concat(releases_lines(front), release_lines(rs.last()));
    }
}

/// The canonical text of a canonical changelog spells it.
pub proof fn lemma_canonical_round_trip(d: DocumentView)
    requires
        canonical(d),
    ensures
        parse_text(markdown(d)) == Ok::<DocumentView, IssueView>(d),
{
    lemma_title_line(initial_state(), d.title);
    let head = seq!["# "@ + d.title, Seq::<char>::empty()];
    assert(single_lines(head));
    assert(ends_open(head));
    lemma_releases_lines_shape(d.releases);
    lemma_shape_concat(head, releases_lines(d.releases));
    if d.releases.len() == 0 {
        assert(document_lines(d) =~= head);
    }
    lemma_split_closed(document_lines(d));
    lemma_lines_round_trip(d);
}

/// A part of one line is one line.
proof fn lemma_single_line_part(s: Seq<char>, from: int, to: int)
    requires
        single_line(s),
        0 <= from <= to <= s.len(),
    ensures
        single_line(s.subrange(from, to)),
{
    assert forall|i: int| 0 <= i < to - from implies s.subrange(from, to)[i] != '\n' by {
        assert(s.subrange(from, to)[i] == s[from + i]);
    }
}

/// A date that is kept is clean.
proof fn lemma_date_clean(s: Seq<char>)
    requires
        single_line(s),
    ensures
        date_of(s) matches Some(d) ==> clean(d),
{
    lemma_trim_single_line(s);
}

/// The release that a heading line opens is canonical.
proof fn lemma_heading_canonical(line: Seq<char>, number: nat)
    requires
        single_line(line),
        heading(line, number) is Ok,
    ensures
        canonical_release(heading(line, number)->Ok_0),
{
    let stripped = strip_prefix(line, "## "@);
    if has_prefix(line, "## "@) {
        lemma_single_line_part(line, "## "@.len() as int, line.len() as int);
    }
    lemma_trim_single_line(stripped);
    let rest = trim(stripped);
    if rest.len() > 0 && rest[0] == '[' {
        lemma_index_of_bounds(rest, ']');
        let close = index_of(rest, ']');
        lemma_single_line_part(rest, close + 1, rest.len() as int);
        let after = rest.skip(close + 1);
        lemma_trim_single_line(after);
        let trailing = trim(after);
        if trailing.len() > 0 && trailing[0] == '-' {
            lemma_single_line_part(trailing, 1, trailing.len() as int);
            lemma_date_clean(trailing.skip(1));
        }
    } else {
        lemma_find_bounds(rest, " - "@);
        let at = find(rest, " - "@);
        if at < rest.len() {
            reveal_strlit(" - ");
            lemma_single_line_part(rest, at + 3, rest.len() as int);
            lemma_date_clean(rest.skip(at + 3));
        }
    }
    let parts = heading_parts(rest, number);
    if parts is Ok {
        lemma_spelled(parts->Ok_0.0);
    }
    let r = heading(line, number)->Ok_0;
    assert(r.sections =~= Seq::<SectionView>::empty());
}

/// Replacing or inserting a clean section among clean sections leaves
/// them clean.
proof fn lemma_with_section_clean(ss: Seq<SectionView>, name: Seq<char>, notes: Seq<Seq<char>>)
    requires
        sections_clean(ss),
        clean(name),
        forall|j: int| 0 <= j < notes.len() ==> clean(#[trigger] notes[j]),
    ensures
        sections_clean(with_section(ss, name, notes)),
{
    lemma_with_section_sorted(ss, name, notes);
    lemma_position_bounds(ss, name);
    let p = position(ss, name);
    let out = with_section(ss, name, notes);
    let new = SectionView { name, notes };
    assert forall|i: int| 0 <= i < out.len() implies out[i] == new || exists|k: int|
        0 <= k < ss.len() && ss[k] == #[trigger] out[i] by {
        if has_section(ss, name) {
            if i != p {
                assert(out[i] == ss[i]);
            }
        } else {
            if i < p {
                assert(out[i] == ss[i]);
            } else if i > p {
                assert(out[i] == ss[i - 1]);
            }
        }
    }
    assert forall|i: int| 0 <= i < out.len() implies clean(#[trigger] out[i].name) by {
        if out[i] != new {
            let k = choose|k: int| 0 <= k < ss.len() && ss[k] == out[i];
            assert(clean(ss[k].name));
        }
    }
    assert forall|i: int, j: int| 0 <= i < out.len() && 0 <= j < out[i].notes.len() implies clean(
        #[trigger] out[i].notes[j],
    ) by {
        if out[i] != new {
            let k = choose|k: int| 0 <= k < ss.len() && ss[k] == out[i];
            assert(clean(ss[k].notes[j]));
        }
    }
}

/// The notes of a section among clean sections are clean.
proof fn lemma_notes_of_clean(ss: Seq<SectionView>, name: Seq<char>)
    requires
        sections_clean(ss),
    ensures
        forall|j: int| 0 <= j < notes_of(ss, name).len() ==> clean(#[trigger] notes_of(ss, name)[j]),
{
    if has_section(ss, name) {
        let p = position(ss, name);
        assert forall|j: int| 0 <= j < notes_of(ss, name).len() implies clean(
            #[trigger] notes_of(ss, name)[j],
        ) by {
            assert(clean(ss[p].notes[j]));
        }
    }
}

/// Whether all that the parser has read is canonical.
pub open spec fn canonical_state(s: ParseState) -> bool {
    &&& s.title matches Some(t) ==> clean(t)
    &&& forall|i: int| 0 <= i < s.done.len() ==> canonical_release(#[trigger] s.done[i])
    &&& s.open matches Some(r) ==> canonical_release(r)
    &&& s.section matches Some(n) ==> clean(n)
}

proof fn lemma_closed_canonical(s: ParseState)
    requires
        canonical_state(s),
    ensures
        forall|i: int|
            0 <= i < closed_releases(s).len() ==> canonical_release(
                #[trigger] closed_releases(s)[i],
            ),
{
    let all = closed_releases(s);
    assert forall|i: int| 0 <= i < all.len() implies canonical_release(#[trigger] all[i]) by {
        if i < s.done.len() {
            assert(all[i] == s.done[i]);
        }
    }
}

/// What is left of a trimmed line behind a prefix that ends with a space
/// is not blank.
proof fn lemma_rest_not_blank(line: Seq<char>, p: Seq<char>)
    requires
        tight(line),
        has_prefix(line, p),
        p.len() > 0,
        is_whitespace(p.last()),
    ensures
        trim(strip_prefix(line, p)).len() > 0,
{
    let n = p.len() as int;
    assert(line.take(n)[n - 1] == p.last());
    assert(line[n - 1] == p.last());
    assert(line.len() > n);
    let rest = line.skip(n);
    assert(rest[rest.len() - 1] == line.last());
    lemma_trim_keeps(rest, rest.len() - 1);
}

/// One more line leaves what the parser has read canonical.
proof fn lemma_step_canonical(s: ParseState, raw: Seq<char>, number: nat)
    requires
        canonical_state(s),
        single_line(raw),
        step(s, raw, number) is Ok,
    ensures
        canonical_state(step(s, raw, number)->Ok_0),
{
    lemma_trim_single_line(raw);
    let line = trim(raw);
    let next = step(s, raw, number)->Ok_0;
    if line.len() == 0 {
    } else if s.title is None {
        reveal_strlit("# ");
        lemma_single_line_part(line, 2, line.len() as int);
        assert(line.skip(2) == line.subrange(2, line.len() as int));
        lemma_trim_single_line(line.skip(2));
        assert("# "@.last() == ' ');
        lemma_rest_not_blank(line, "# "@);
    } else if has_prefix(line, "## "@) {
        lemma_heading_canonical(line, number);
        lemma_closed_canonical(s);
    } else if has_prefix(line, "### "@) {
        reveal_strlit("### ");
        lemma_single_line_part(line, 4, line.len() as int);
        assert(line.skip(4) == line.subrange(4, line.len() as int));
        lemma_trim_single_line(line.skip(4));
        let name = trim(strip_prefix(line, "### "@));
        let sections = s.open->0.sections;
        lemma_notes_of_clean(sections, name);
        lemma_with_section_clean(sections, name, notes_of(sections, name));
    } else {
        reveal_strlit("- ");
        lemma_single_line_part(line, 2, line.len() as int);
        assert(line.skip(2) == line.subrange(2, line.len() as int));
        lemma_trim_single_line(line.skip(2));
        let note = trim(strip_prefix(line, "- "@));
        let sections = s.open->0.sections;
        let name = s.section->0;
        lemma_notes_of_clean(sections, name);
        let notes = notes_of(sections, name).push(note);
        assert forall|j: int| 0 <= j < notes.len() implies clean(#[trigger] notes[j]) by {
            if j < notes.len() - 1 {
                assert(notes[j] == notes_of(sections, name)[j]);
            }
        }
        lemma_with_section_clean(sections, name, notes);
    }
}

proof fn lemma_run_canonical(s: ParseState, lines: Seq<Seq<char>>, from: int)
    requires
        canonical_state(s),
        single_lines(lines),
        0 <= from <= lines.len(),
        run(s, lines, from) is Ok,
    ensures
        canonical_state(run(s, lines, from)->Ok_0),
    decreases lines.len() - from,
{
    if from < lines.len() {
        lemma_step_canonical(s, lines[from], (from + 1) as nat);
        lemma_run_canonical(step(s, lines[from], (from + 1) as nat)->Ok_0, lines, from + 1);
    }
}

/// A changelog that was read from a text is canonical.
pub proof fn lemma_parsed_is_canonical(text: Seq<char>)
    requires
        parse_text(text) is Ok,
    ensures
        canonical(parse_text(text)->Ok_0),
{
    let lines = split_lines(text);
    lemma_split_lines_single(text);
    lemma_run_canonical(initial_state(), lines, 0);
    let end = run(initial_state(), lines, 0)->Ok_0;
    lemma_closed_canonical(end);
}

/// The round trip. A changelog that was read from a text is spelled by its
/// own canonical text: reading that text gives the same changelog.
pub proof fn lemma_round_trip(text: Seq<char>)
    requires
        parse_text(text) is Ok,
    ensures
        parse_text(markdown(parse_text(text)->Ok_0)) == parse_text(text),
{
    lemma_parsed_is_canonical(text);
    lemma_canonical_round_trip(parse_text(text)->Ok_0);
}

} // verus!
