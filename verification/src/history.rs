//! The history of a repository as the tool sees it: which commits a range
//! asks for, and the commands that go from a repository to a changelog.

use crate::commands::apply_release;
use crate::commit::Commit;
use crate::document::{ChangelogDocument, index_of_version, option_view, today};
use crate::error::ChangelogError;
use crate::render::markdown;
use crate::tags::{latest_index, latest_semver_tag};
use crate::version::Version;
use crate::text::{chars_lt, string_views, text_lt, to_chars};
use crate::text::{lemma_text_lt_total, lemma_text_lt_transitive};
use crate::validate::validation;
use vstd::prelude::*;

verus! {

/// The commits that are asked for: those behind `since` up to `until`, or
/// the one commit `specific`.
#[derive(Debug)]
pub struct CommitRange {
    pub since: Option<String>,
    pub until: Option<String>,
    pub specific: Option<String>,
}

impl Default for CommitRange {
    fn default() -> (r: Self)
        ensures
            r.since is None,
            r.until is None,
            r.specific is None,
    {
        CommitRange { since: None, until: None, specific: None }
    }
}

impl Clone for CommitRange {
    fn clone(&self) -> (r: Self)
        ensures
            option_view(r.since) == option_view(self.since),
            option_view(r.until) == option_view(self.until),
            option_view(r.specific) == option_view(self.specific),
    {
        CommitRange {
            since: clone_option(&self.since),
            until: clone_option(&self.until),
            specific: clone_option(&self.specific),
        }
    }
}

fn clone_option(o: &Option<String>) -> (r: Option<String>)
    ensures
        option_view(r) == option_view(*o),
{
    match o {
        Some(s) => Some(s.clone()),
        None => None,
    }
}

/// Where a walk through the history starts.
#[derive(Debug, PartialEq, Eq)]
pub enum WalkStart {
    /// At the commit that a reference names.
    Reference(String),
    /// At the head of the repository.
    Head,
}

/// How to walk through the history for a range.
#[derive(Debug, PartialEq, Eq)]
pub struct WalkPlan {
    pub start: WalkStart,
    /// The reference whose commit, with all before it, is left out.
    pub hide: Option<String>,
    /// Whether the parents of the start, with all before them, are left
    /// out, so that the walk yields the start alone.
    pub hide_parents: bool,
}

/// The walk that a range asks for. A specific commit is walked alone,
/// whatever else the range names. Otherwise the walk starts at `until`, or
/// at the head if there is none, and leaves out `since`.
pub fn plan_walk(range: &CommitRange) -> (plan: WalkPlan)
    ensures
        match range.specific {
            Some(reference) => plan.start matches WalkStart::Reference(s) && s@ == reference@
                && plan.hide is None && plan.hide_parents,
            None => !plan.hide_parents && option_view(plan.hide) == option_view(range.since)
                && match range.until {
                Some(reference) => plan.start matches WalkStart::Reference(s) && s@ == reference@,
                None => plan.start is Head,
            },
        },
{
    match &range.specific {
        Some(reference) => {
            return WalkPlan {
                start: WalkStart::Reference(reference.clone()),
                hide: None,
                hide_parents: true,
            };
        },
        None => {},
    }
    let start = match &range.until {
        Some(reference) => WalkStart::Reference(reference.clone()),
        None => WalkStart::Head,
    };
    WalkPlan { start, hide: clone_option(&range.since), hide_parents: false }
}

/// The commits of a walk, which come newest first, from oldest to newest.
pub fn oldest_first(newest_first: Vec<Commit>) -> (r: Vec<Commit>)
    ensures
        r@ == newest_first@.reverse(),
{
    let mut rest = newest_first;
    let mut out: Vec<Commit> = Vec::new();
    let ghost all = rest@;
    while rest.len() > 0
        invariant
            rest@ == all.take(rest.len() as int),
            out.len() + rest.len() == all.len(),
            forall|i: int| 0 <= i < out.len() ==> out@[i] == all[all.len() - 1 - i],
        decreases rest.len(),
    {
        let c = rest.pop().unwrap();
        out.push(c);
    }
    assert(out@ =~= all.reverse());
    out
}

/// Whether the texts stand in lexicographic order.
pub open spec fn ascending(s: Seq<Seq<char>>) -> bool {
    forall|i: int, j: int| 0 <= i < j < s.len() ==> !text_lt(s[j], s[i])
}

/// The tags in lexicographic order.
pub fn sorted_tags(tags: Vec<String>) -> (r: Vec<String>)
    ensures
        ascending(string_views(r@)),
        string_views(r@).to_multiset() == string_views(tags@).to_multiset(),
{
    let mut rest = tags;
    let mut out: Vec<String> = Vec::new();
    let ghost all = string_views(rest@);
    proof {
        assert(string_views(out@) =~= Seq::<Seq<char>>::empty());
        broadcast use vstd::multiset::group_multiset_axioms;

        vstd::seq_lib::to_multiset_len(string_views(out@));
        vstd::multiset::lemma_multiset_empty_len(string_views(out@).to_multiset());
        assert(string_views(out@).to_multiset().add(all.to_multiset()) =~= all.to_multiset());
    }
    while rest.len() > 0
        invariant
            ascending(string_views(out@)),
            string_views(out@).to_multiset().add(string_views(rest@).to_multiset())
                == all.to_multiset(),
        decreases rest.len(),
    {
        let ghost before = string_views(out@);
        let ghost left = string_views(rest@);
        let tag = rest.pop().unwrap();
        let key = to_chars(tag.as_str());
        let mut p: usize = out.len();
        while p > 0 && chars_lt(&key, &to_chars(out[p - 1].as_str()))
            invariant
                p <= out.len(),
                key@ == tag@,
                before == string_views(out@),
                forall|i: int| p <= i < out.len() ==> text_lt(tag@, #[trigger] before[i]),
            decreases p,
        {
            p -= 1;
        }
        proof {
            let after = before.insert(p as int, tag@);
            assert(string_views(out@.insert(p as int, tag)) =~= after);
            assert forall|i: int, j: int| 0 <= i < j < after.len() implies !text_lt(
                after[j],
                after[i],
            ) by {
                let a = if i < p {
                    i
                } else {
                    i - 1
                };
                let b = if j < p {
                    j
                } else {
                    j - 1
                };
                if j == p {
                    assert(after[i] == before[i]);
                    if p > 0 {
                        assert(!text_lt(tag@, before[p - 1]));
                        if i < p - 1 {
                            assert(!text_lt(before[p - 1], before[i]));
                            if text_lt(tag@, before[i]) {
                                lemma_text_lt_total(before[i], before[p - 1]);
                                if text_lt(before[i], before[p - 1]) {
                                    lemma_text_lt_transitive(tag@, before[i], before[p - 1]);
                                }
                            }
                        }
                    }
                } else if i == p {
                    assert(after[j] == before[b]);
                    assert(text_lt(tag@, before[b]));
                    if text_lt(before[b], tag@) {
                        lemma_text_lt_transitive(tag@, before[b], tag@);
                        crate::text::lemma_text_lt_irreflexive(tag@);
                    }
                } else {
                    assert(after[i] == before[a] && after[j] == before[b]);
                }
            }
            assert(left.drop_last() =~= string_views(rest@));
            assert(left.last() == tag@);
            assert(left =~= string_views(rest@).push(tag@));
            broadcast use vstd::multiset::group_multiset_axioms;

            vstd::seq_lib::to_multiset_insert(before, p as int, tag@);
            vstd::seq_lib::to_multiset_build(string_views(rest@), tag@);
            assert(after.to_multiset().add(string_views(rest@).to_multiset())
                =~= before.to_multiset().add(left.to_multiset()));
        }
        out.insert(p, tag);
    }
    proof {
        broadcast use vstd::multiset::group_multiset_axioms;

        assert(string_views(rest@) =~= Seq::<Seq<char>>::empty());
        vstd::seq_lib::to_multiset_len(string_views(rest@));
        vstd::multiset::lemma_multiset_empty_len(string_views(rest@).to_multiset());
        assert(string_views(out@).to_multiset().add(string_views(rest@).to_multiset())
            =~= string_views(out@).to_multiset());
    }
    out
}

/// A repository as the tool needs it. An error is the text that tells
/// what went wrong.
pub trait RepositoryApi {
    /// The commits of a range, oldest first.
    fn list_commits(&self, range: &CommitRange) -> Result<Vec<Commit>, String>;

    /// The names of the tags.
    fn list_tags(&self) -> Result<Vec<String>, String>;
}

/// The range of the commits of a new release: those since the tag that
/// names the latest version, or all commits if no tag names a version.
pub fn release_range(tags: &[String]) -> (range: CommitRange)
    ensures
        range.until is None,
        range.specific is None,
        range.since is Some == (latest_index(string_views(tags@)) >= 0),
        range.since matches Some(tag) ==> tag@ == string_views(tags@)[latest_index(
            string_views(tags@),
        )],
{
    CommitRange { since: latest_semver_tag(tags), until: None, specific: None }
}

/// Makes a release, dated today, of the commits since the latest version
/// tag of the repository, puts it into the changelog, validates the
/// changelog and returns its text. An error of the repository is returned
/// as a git error and leaves the changelog as it is; what is done with the
/// commits is what `apply_release` does.
pub fn release_from<R: RepositoryApi>(
    repo: &R,
    document: &mut ChangelogDocument,
    version: Version,
    header: &str,
    override_existing: bool,
) -> (r: Result<String, ChangelogError>)
    ensures
        final(document)@.title == old(document)@.title,
        r matches Ok(text) ==> validation(final(document)@, false) is Ok && text@ == markdown(
            final(document)@,
        ),
        r matches Err(e) ==> e is GitError || e is InvalidArguments || e is Other,
        r matches Err(e) && e is GitError ==> final(document)@ == old(document)@,
        !override_existing && index_of_version(old(document)@.releases, version@) < old(
            document,
        )@.releases.len() ==> r is Err && final(document)@ == old(document)@,
{
    let tags = match repo.list_tags() {
        Ok(tags) => tags,
        Err(message) => {
            return Err(ChangelogError::GitError(message));
        },
    };
    let range = release_range(tags.as_slice());
    let commits = match repo.list_commits(&range) {
        Ok(list) => list,
        Err(message) => {
            return Err(ChangelogError::GitError(message));
        },
    };
    apply_release(document, version, today(), header, commits.as_slice(), override_existing)
}

} // verus!
