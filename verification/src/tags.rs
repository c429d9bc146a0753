//! Version tags: which tag of a repository names the latest version.

use crate::text::{from_chars, slice_of, strip_prefix, string_views, to_chars};
use crate::text::matches_at;
use crate::version::{Version, VersionView, version_of_text, version_order};
use vstd::prelude::*;

verus! {

/// The version that a tag names: the tag is read without one leading `v`.
pub open spec fn tag_version(tag: Seq<char>) -> Option<VersionView> {
    version_of_text(strip_prefix(tag, "v"@))
}

/// The index of the tag that names the latest version, or -1 if no tag
/// names a version. A later tag takes the place of an earlier one only if
/// its version is strictly greater.
pub open spec fn latest_index(tags: Seq<Seq<char>>) -> int
    decreases tags.len(),
{
    if tags.len() == 0 {
        -1
    } else {
        let before = latest_index(tags.drop_last());
        match tag_version(tags.last()) {
            None => before,
            Some(v) => if before < 0 || before >= tags.len() - 1 || tag_version(tags[before])
                is None || version_order(v, tag_version(tags[before])->0) > 0 {
                tags.len() - 1
            } else {
                before
            },
        }
    }
}

/// The chosen tag names a version, and there is one whenever some tag
/// names a version.
pub proof fn lemma_latest_index(tags: Seq<Seq<char>>)
    ensures
        -1 <= latest_index(tags) < tags.len(),
        latest_index(tags) >= 0 ==> tag_version(tags[latest_index(tags)]) is Some,
        latest_index(tags) < 0 ==> forall|i: int|
            0 <= i < tags.len() ==> tag_version(#[trigger] tags[i]) is None,
    decreases tags.len(),
{
    if tags.len() > 0 {
        let front = tags.drop_last();
        lemma_latest_index(front);
        if latest_index(front) >= 0 {
            assert(front[latest_index(front)] == tags[latest_index(front)]);
        }
        if latest_index(tags) < 0 {
            assert forall|i: int| 0 <= i < tags.len() implies tag_version(#[trigger] tags[i])
                is None by {
                if i < front.len() {
                    assert(front[i] == tags[i]);
                }
            }
        }
    }
}

/// The version that a tag names.
pub fn version_of_tag(tag: &str) -> (r: Option<Version>)
    ensures
        tag_version(tag@) == (match r {
            Some(v) => Some(v@),
            None => None,
        }),
{
    let chars = to_chars(tag);
    let prefix = to_chars("v");
    assert(chars@.skip(0) == chars@);
    if matches_at(&chars, &prefix, 0) {
        let rest = slice_of(&chars, prefix.len(), chars.len());
        assert(rest@ == chars@.skip(prefix.len() as int));
        let text = from_chars(&rest);
        Version::parse(text.as_str())
    } else {
        Version::parse(tag)
    }
}

/// The tag that names the latest version, if any tag names a version.
pub fn latest_semver_tag(tags: &[String]) -> (r: Option<String>)
    ensures
        r is Some == (latest_index(string_views(tags@)) >= 0),
        r matches Some(tag) ==> tag@ == string_views(tags@)[latest_index(string_views(tags@))],
{
    let ghost all = string_views(tags@);
    let mut best: Option<(Version, usize)> = None;
    let mut i: usize = 0;
    proof {
        assert(all.take(0) =~= Seq::<Seq<char>>::empty());
    }
    while i < tags.len()
        invariant
            i <= tags.len(),
            all == string_views(tags@),
            best is Some == (latest_index(all.take(i as int)) >= 0),
            best matches Some(b) ==> b.1 == latest_index(all.take(i as int)) && b.1 < i
                && tag_version(all[b.1 as int]) == Some(b.0@),
        decreases tags.len() - i,
    {
        proof {
            let prefix = all.take(i + 1);
            assert(prefix.drop_last() == all.take(i as int));
            assert(prefix.last() == all[i as int]);
            lemma_latest_index(all.take(i as int));
            if latest_index(all.take(i as int)) >= 0 {
                assert(prefix[latest_index(all.take(i as int))] == all[latest_index(
                    all.take(i as int),
                )]);
            }
        }
        match version_of_tag(tags[i].as_str()) {
            Some(v) => {
                let better = match &best {
                    Some(b) => v.compare(&b.0) > 0,
                    None => true,
                };
                if better {
                    best = Some((v, i));
                }
            },
            None => {},
        }
        i += 1;
    }
    assert(all.take(i as int) == all);
    match best {
        Some(b) => Some(tags[b.1].clone()),
        None => None,
    }
}

} // verus!
