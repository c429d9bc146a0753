//! The plain grouping of commits by their kind, and the changelog text
//! that is generated from such groups.

use crate::commit::{Commit, messages};
use crate::document::{option_view, today};
use crate::error::ChangelogError;
use crate::sections::{SectionMap, SectionView, with_note, with_section};
use crate::text::{from_chars, push_all, string_views, to_chars};
use vstd::prelude::*;

verus! {

/// `regex::Error`, carried through as a value that is not looked into.
#[verifier::external_type_specification]
#[verifier::external_body]
pub struct ExRegexError(regex::Error);

/// The pattern of a conventional commit: one of six kinds, an optional
/// scope in parentheses, a colon and a space, and the description.
pub open spec fn conventional_pattern() -> Seq<char> {
    "^(feat|fix|docs|chore|refactor|test)(\\(.+\\))?: (.+)"@
}

/// What the `regex` crate finds of a pattern in a text. `None` if the
/// pattern is not valid. Else `Some(None)` if the pattern matches nowhere,
/// or the capture groups of the leftmost match: one entry for each group of
/// the pattern, the whole match first, with `None` for a group that took no
/// part in the match.
pub uninterp spec fn regex_captures(pattern: Seq<char>, text: Seq<char>) -> Option<
    Option<Seq<Option<Seq<char>>>>,
>;

/// The views of the capture groups of a match.
pub open spec fn group_views(groups: Seq<Option<String>>) -> Seq<Option<Seq<char>>> {
    Seq::new(
        groups.len(),
        |i: int|
            match groups[i] {
                Some(s) => Some(s@),
                None => None,
            },
    )
}

/// `regex::Regex::new` on the pattern, then `Regex::captures` on the text,
/// with the text of each capture group copied out. The result is the one
/// that `regex_captures` names for the pattern and the text: matching is a
/// function of the two alone.
#[verifier::external_body]
fn captures(pattern: &str, text: &str) -> (r: Result<Option<Vec<Option<String>>>, regex::Error>)
    ensures
        regex_captures(pattern@, text@) == (match r {
            Ok(Some(groups)) => Some(Some(group_views(groups@))),
            Ok(None) => Some(None),
            Err(_) => None,
        }),
{
    let re = regex::Regex::new(pattern)?;
    Ok(
        re.captures(text).map(
            |c| (0..c.len()).map(|i| c.get(i).map(|m| m.as_str().to_string())).collect(),
        ),
    )
}

/// A pattern error of `regex` as its `Display` shows it to the user.
/// Nothing is stated of the text.
#[verifier::external_body]
fn shown_regex_error(error: &regex::Error) -> (text: String) {
    error.to_string()
}

/// The kind and the description in the capture groups of a conventional
/// commit: the first and the third group, if both took part in the match.
pub open spec fn captured_note(groups: Seq<Option<Seq<char>>>) -> Option<(Seq<char>, Seq<char>)> {
    if groups.len() > 3 && groups[1] is Some && groups[3] is Some {
        Some((groups[1]->0, groups[3]->0))
    } else {
        None
    }
}

/// `acc` with the note of a match added to the group of its kind.
pub open spec fn with_captured(acc: Seq<SectionView>, found: Option<Seq<Option<Seq<char>>>>) -> Seq<
    SectionView,
> {
    match found {
        Some(groups) => match captured_note(groups) {
            Some((kind, description)) => with_note(acc, kind, description),
            None => acc,
        },
        None => acc,
    }
}

/// The groups of the conventional commits among the messages, or `None` if
/// the pattern is refused.
pub open spec fn conventional_groups(messages: Seq<Seq<char>>) -> Option<Seq<SectionView>>
    decreases messages.len(),
{
    if messages.len() == 0 {
        Some(Seq::empty())
    } else {
        match conventional_groups(messages.drop_last()) {
            None => None,
            Some(acc) => match regex_captures(conventional_pattern(), messages.last()) {
                None => None,
                Some(found) => Some(with_captured(acc, found)),
            },
        }
    }
}

/// Adds the note of a match of the conventional pattern to the group of
/// its kind. Nothing is added if there was no match.
pub fn add_captured(groups: &mut SectionMap, found: &Option<Vec<Option<String>>>)
    ensures
        final(groups)@ == with_captured(
            old(groups)@,
            match found {
                Some(g) => Some(group_views(g@)),
                None => None,
            },
        ),
{
    match found {
        Some(list) => {
            if list.len() > 3 {
                match (&list[1], &list[3]) {
                    (Some(kind), Some(description)) => {
                        groups.add_note(kind.clone(), description.clone());
                    },
                    _ => {},
                }
            }
        },
        None => {},
    }
}

/// Groups the commits. With `conventional` set, every commit whose message
/// matches the conventional pattern gives its description to the group of
/// its kind; the others give nothing. Without it, all messages go to the
/// one group "changes".
pub fn group_commits(commits: Vec<Commit>, conventional: bool) -> (r: Result<
    SectionMap,
    ChangelogError,
>)
    ensures
        conventional ==> (r is Ok == conventional_groups(messages(commits@)) is Some),
        conventional ==> (r matches Ok(g) ==> conventional_groups(messages(commits@)) == Some(g@)),
        r matches Err(e) ==> e is RegexError,
        !conventional ==> (r matches Ok(g) && g@ == with_section(
            Seq::empty(),
            "changes"@,
            messages(commits@),
        )),
{
    let ghost all = messages(commits@);
    let mut groups = SectionMap::new();
    if conventional {
        let mut i: usize = 0;
        proof {
            assert(all.take(0) =~= Seq::<Seq<char>>::empty());
        }
        while i < commits.len()
            invariant
                i <= commits.len(),
                conventional,
                all == messages(commits@),
                conventional_groups(all.take(i as int)) == Some(groups@),
            decreases commits.len() - i,
        {
            proof {
                let prefix = all.take(i + 1);
                assert(prefix.drop_last() == all.take(i as int));
                assert(prefix.last() == commits@[i as int].message@);
            }
            match captures(
                "^(feat|fix|docs|chore|refactor|test)(\\(.+\\))?: (.+)",
                commits[i].message.as_str(),
            ) {
                Ok(found) => {
                    add_captured(&mut groups, &found);
                },
                Err(e) => {
                    proof {
                        lemma_refused_stays(all, i + 1);
                    }
                    return Err(ChangelogError::RegexError(shown_regex_error(&e)));
                },
            }
            i += 1;
        }
        assert(all.take(i as int) == all);
    } else {
        let mut texts: Vec<String> = Vec::new();
        let mut i: usize = 0;
        while i < commits.len()
            invariant
                i <= commits.len(),
                texts.len() == i,
                forall|j: int| 0 <= j < i ==> (#[trigger] texts@[j])@ == commits@[j].message@,
            decreases commits.len() - i,
        {
            texts.push(commits[i].message.clone());
            i += 1;
        }
        assert(string_views(texts@) =~= all);
        groups.insert("changes".to_owned(), texts);
    }
    Ok(groups)
}

/// Once the pattern is refused for some messages, it is refused for every
/// longer list of them.
proof fn lemma_refused_stays(all: Seq<Seq<char>>, n: int)
    requires
        0 <= n <= all.len(),
        conventional_groups(all.take(n)) is None,
    ensures
        conventional_groups(all) is None,
    decreases all.len() - n,
{
    if n < all.len() {
        assert(all.take(n + 1).drop_last() == all.take(n));
        lemma_refused_stays(all, n + 1);
    } else {
        assert(all.take(n) == all);
    }
}

/// The link that compares two versions on GitHub: none yet, so it is
/// empty.
pub open spec fn compare_link() -> Seq<char> {
    Seq::empty()
}

/// The link that compares two versions on GitHub.
pub fn generate_compare_link() -> (r: Result<String, ChangelogError>)
    ensures
        r matches Ok(link) && link@ == compare_link(),
{
    Ok(String::new())
}

/// What `str::to_uppercase` returns for a text: its uppercase equivalent
/// by the Unicode case mapping.
pub uninterp spec fn uppercased(s: Seq<char>) -> Seq<char>;

/// `str::to_uppercase` returns the text that `uppercased` names: it is a
/// function of its argument alone.
pub assume_specification[ str::to_uppercase ](s: &str) -> (r: String)
    ensures
        r@ == uppercased(s@),
;

/// The text of the notes of one group, one line each.
pub open spec fn bullet_text(notes: Seq<Seq<char>>) -> Seq<char>
    decreases notes.len(),
{
    if notes.len() == 0 {
        Seq::empty()
    } else {
        bullet_text(notes.drop_last()) + "- "@ + notes.last() + "\n"@
    }
}

/// The text of the groups: for each a heading with its name in upper
/// case, its notes and an empty line.
pub open spec fn groups_text(groups: Seq<SectionView>) -> Seq<char>
    decreases groups.len(),
{
    if groups.len() == 0 {
        Seq::empty()
    } else {
        groups_text(groups.drop_last()) + "### "@ + uppercased(groups.last().name) + "\n"@
            + bullet_text(groups.last().notes) + "\n"@
    }
}

/// The generated changelog: the title, the heading of the release if one
/// is named, the groups, and the compare link if links are wanted.
pub open spec fn generated(
    groups: Seq<SectionView>,
    release: Option<Seq<char>>,
    github_enabled: bool,
    date: Seq<char>,
) -> Seq<char> {
    "# Changelog\n\n"@ + (match release {
        Some(version) => "## ["@ + version + "] - "@ + date + "\n\n"@,
        None => Seq::empty(),
    }) + groups_text(groups) + (if github_enabled {
        "---\nCompare: "@ + compare_link() + "\n"@
    } else {
        Seq::empty()
    })
}

fn push_text(out: &mut Vec<char>, s: &str)
    ensures
        final(out)@ == old(out)@ + s@,
{
    let chars = to_chars(s);
    push_all(out, &chars);
}

/// Appends a heading for each group and a line for each of its notes.
pub fn push_groups(out: &mut Vec<char>, groups: &SectionMap)
    ensures
        final(out)@ == old(out)@ + groups_text(groups@),
{
    let ghost before = out@;
    let ghost all = groups@;
    let mut k: usize = 0;
    proof {
        assert(all.take(0) =~= Seq::<SectionView>::empty());
        assert(before + groups_text(all.take(0)) =~= before);
    }
    while k < groups.len()
        invariant
            k <= all.len(),
            all == groups@,
            out@ == before + groups_text(all.take(k as int)),
        decreases all.len() - k,
    {
        let section = groups.section(k);
        let ghost start = out@;
        push_text(out, "### ");
        let name = section.name.as_str().to_uppercase();
        push_text(out, name.as_str());
        push_text(out, "\n");
        let ghost head = out@;
        let ghost notes = section@.notes;
        let mut n: usize = 0;
        proof {
            assert(notes.take(0) =~= Seq::<Seq<char>>::empty());
            assert(head + bullet_text(notes.take(0)) =~= head);
        }
        while n < section.notes.len()
            invariant
                n <= section.notes.len(),
                notes == section@.notes,
                out@ == head + bullet_text(notes.take(n as int)),
            decreases section.notes.len() - n,
        {
            proof {
                assert(notes.take(n + 1).drop_last() == notes.take(n as int));
                assert(notes.take(n + 1).last() == section.notes@[n as int]@);
            }
            let ghost now = out@;
            push_text(out, "- ");
            push_text(out, section.notes[n].as_str());
            push_text(out, "\n");
            assert(out@ =~= head + bullet_text(notes.take(n + 1)));
            n += 1;
        }
        push_text(out, "\n");
        proof {
            assert(notes.take(n as int) == notes);
            assert(all.take(k + 1).drop_last() == all.take(k as int));
            assert(all.take(k + 1).last() == section@);
            assert(out@ =~= before + groups_text(all.take(k + 1)));
        }
        k += 1;
    }
    assert(all.take(k as int) == all);
}

/// The generated changelog for a given date.
pub fn generate_dated(grouped: &SectionMap, release: Option<String>, github_enabled: bool, date: &str) -> (r:
    String)
    ensures
        r@ == generated(
            grouped@,
            option_view(release),
            github_enabled,
            date@,
        ),
{
    let mut out = to_chars("# Changelog\n\n");
    match &release {
        Some(version) => {
            push_text(&mut out, "## [");
            push_text(&mut out, version.as_str());
            push_text(&mut out, "] - ");
            push_text(&mut out, date);
            push_text(&mut out, "\n\n");
        },
        None => {
            assert(out@ + Seq::<char>::empty() =~= out@);
        },
    }
    push_groups(&mut out, grouped);
    if github_enabled {
        match generate_compare_link() {
            Ok(link) => {
                push_text(&mut out, "---\nCompare: ");
                push_text(&mut out, link.as_str());
                push_text(&mut out, "\n");
            },
            Err(_) => {},
        }
    }
    let r = from_chars(&out);
    assert(r@ =~= generated(
        grouped@,
        option_view(release),
        github_enabled,
        date@,
    ));
    r
}

/// The generated changelog, dated today.
pub fn generate(grouped: SectionMap, release: Option<String>, github_enabled: bool) -> (r: Result<
    String,
    ChangelogError,
>)
    ensures
        r matches Ok(text) && exists|date: Seq<char>|
            text@ == #[trigger] generated(
                grouped@,
                option_view(release),
                github_enabled,
                date,
            ),
{
    let date = today();
    Ok(generate_dated(&grouped, release, github_enabled, date.as_str()))
}

} // verus!
