//! Semantic versions as plain values.
//!
//! A [`Version`] holds the three numbers and the two identifier strings of a
//! semantic version. Parsing and the order of pre-release and build
//! identifiers are those of the `semver` crate, reached through the trusted
//! functions of this module; everything else is verified here.

use crate::text::{decimal, decimal_chars, from_chars, index_of, is_digit, push_all, to_chars};
use crate::text::{lemma_decimal_digits, lemma_decimal_injective, lemma_split_run};
use vstd::prelude::*;

verus! {

/// The mathematical value of a [`Version`].
pub struct VersionView {
    pub major: u64,
    pub minor: u64,
    pub patch: u64,
    /// Pre-release identifiers joined by dots, empty when there are none.
    pub pre: Seq<char>,
    /// Build identifiers joined by dots, empty when there are none.
    pub build: Seq<char>,
}

/// A letter, a digit or a hyphen: what an identifier is made of.
pub open spec fn is_identifier_char(c: char) -> bool {
    is_digit(c) || ('A' <= c && c <= 'Z') || ('a' <= c && c <= 'z') || c == '-'
}

/// Whether `s` is empty or a list of non-empty identifiers joined by dots.
pub open spec fn valid_identifiers(s: Seq<char>) -> bool {
    s.len() > 0 ==> {
        &&& forall|i: int| 0 <= i < s.len() ==> is_identifier_char(#[trigger] s[i]) || s[i] == '.'
        &&& s[0] != '.'
        &&& s.last() != '.'
        &&& forall|i: int| 0 <= i < s.len() - 1 ==> !(#[trigger] s[i] == '.' && s[i + 1] == '.')
    }
}

/// Whether an identifier starts at index `i` of `s`.
pub open spec fn identifier_starts(s: Seq<char>, i: int) -> bool {
    0 <= i < s.len() && (i == 0 || s[i - 1] == '.')
}

/// The identifier of `s` that starts at index `i`.
pub open spec fn identifier_at(s: Seq<char>, i: int) -> Seq<char> {
    s.subrange(i, i + index_of(s.skip(i), '.'))
}

pub open spec fn all_digits(s: Seq<char>) -> bool {
    forall|i: int| 0 <= i < s.len() ==> is_digit(#[trigger] s[i])
}

/// Pre-release identifiers are valid identifiers of which the numeric ones
/// have no leading zero.
pub open spec fn valid_prerelease(s: Seq<char>) -> bool {
    &&& valid_identifiers(s)
    &&& forall|i: int|
        #![trigger identifier_at(s, i)]
        identifier_starts(s, i) && s[i] == '0' && identifier_at(s, i).len() > 1 ==> !all_digits(
            identifier_at(s, i),
        )
}

impl VersionView {
    /// Both identifier strings are valid.
    pub open spec fn well_formed(self) -> bool {
        valid_prerelease(self.pre) && valid_identifiers(self.build)
    }

    /// The canonical text: the three numbers joined by dots, then the
    /// identifiers.
    pub open spec fn text(self) -> Seq<char> {
        decimal(self.major as nat) + seq!['.'] + decimal(self.minor as nat) + seq!['.'] + decimal(
            self.patch as nat,
        ) + identifiers_text(self.pre, self.build)
    }
}

/// The identifiers as they follow the numbers of a version: a hyphen and
/// the pre-release identifiers if there are any, then a plus sign and the
/// build identifiers if there are any.
pub open spec fn identifiers_text(pre: Seq<char>, build: Seq<char>) -> Seq<char> {
    (if pre.len() > 0 {
        seq!['-'] + pre
    } else {
        Seq::<char>::empty()
    }) + (if build.len() > 0 {
        seq!['+'] + build
    } else {
        Seq::<char>::empty()
    })
}

/// Whether `t` is the canonical text of the well-formed version `v`.
pub open spec fn spells(t: Seq<char>, v: VersionView) -> bool {
    v.well_formed() && v.text() == t
}

/// The version that a text spells, if it spells one: the well-formed
/// version whose canonical text it is.
#[verifier::opaque]
pub open spec fn version_of_text(t: Seq<char>) -> Option<VersionView> {
    if exists|v: VersionView| spells(t, v) {
        Some(choose|v: VersionView| spells(t, v))
    } else {
        None
    }
}

proof fn lemma_identifiers_text_injective(
    p1: Seq<char>,
    b1: Seq<char>,
    p2: Seq<char>,
    b2: Seq<char>,
)
    requires
        valid_identifiers(p1),
        valid_identifiers(p2),
        identifiers_text(p1, b1) == identifiers_text(p2, b2),
    ensures
        p1 == p2,
        b1 == b2,
{
    let none = Seq::<char>::empty();
    let pre1 = if p1.len() > 0 {
        seq!['-'] + p1
    } else {
        none
    };
    let pre2 = if p2.len() > 0 {
        seq!['-'] + p2
    } else {
        none
    };
    let build1 = if b1.len() > 0 {
        seq!['+'] + b1
    } else {
        none
    };
    let build2 = if b2.len() > 0 {
        seq!['+'] + b2
    } else {
        none
    };
    let t = identifiers_text(p1, b1);
    assert(t == pre1 + build1);
    assert(t == pre2 + build2);
    if p1.len() > 0 && p2.len() == 0 {
        assert(t[0] == '-');
        assert(t =~= build2);
    }
    if p2.len() > 0 && p1.len() == 0 {
        assert(t[0] == '-');
        assert(t =~= build1);
    }
    if p1.len() > 0 {
        let no_plus = |c: char| c != '+';
        assert(t.skip(1) =~= p1 + build1);
        assert(t.skip(1) =~= p2 + build2);
        assert forall|i: int| 0 <= i < p1.len() implies no_plus(#[trigger] p1[i]) by {
            assert(is_identifier_char(p1[i]) || p1[i] == '.');
        }
        assert forall|i: int| 0 <= i < p2.len() implies no_plus(#[trigger] p2[i]) by {
            assert(is_identifier_char(p2[i]) || p2[i] == '.');
        }
        lemma_split_run(no_plus, p1, build1, p2, build2);
    } else {
        assert(p1 =~= p2);
        assert(t =~= build1);
        assert(t =~= build2);
    }
    assert(build1 == build2);
    if b1.len() > 0 {
        assert(build2.len() > 0);
        assert(build1.skip(1) =~= b1);
        assert(build2.skip(1) =~= b2);
    } else {
        assert(build2.len() == 0);
        assert(b1 =~= b2);
    }
}

/// Two texts that are each a numeral, followed by nothing or by a
/// character that is no digit, are the same only if the numbers are the
/// same and what follows them is.
proof fn lemma_split_number(n1: nat, rest1: Seq<char>, n2: nat, rest2: Seq<char>)
    requires
        rest1.len() > 0 ==> !is_digit(rest1[0]),
        rest2.len() > 0 ==> !is_digit(rest2[0]),
        decimal(n1) + rest1 == decimal(n2) + rest2,
    ensures
        n1 == n2,
        rest1 == rest2,
{
    let digit = |c: char| is_digit(c);
    lemma_decimal_digits(n1);
    lemma_decimal_digits(n2);
    lemma_split_run(digit, decimal(n1), rest1, decimal(n2), rest2);
    lemma_decimal_injective(n1, n2);
}

/// The canonical text behind the major number.
spec fn behind_major(v: VersionView) -> Seq<char> {
    seq!['.'] + behind_dot(v)
}

/// The canonical text from the minor number on.
spec fn behind_dot(v: VersionView) -> Seq<char> {
    decimal(v.minor as nat) + behind_minor(v)
}

/// The canonical text behind the minor number.
spec fn behind_minor(v: VersionView) -> Seq<char> {
    seq!['.'] + (decimal(v.patch as nat) + identifiers_text(v.pre, v.build))
}

proof fn lemma_text_parts(v: VersionView)
    ensures
        v.text() == decimal(v.major as nat) + behind_major(v),
        behind_major(v)[0] == '.',
        behind_major(v).skip(1) == behind_dot(v),
        behind_minor(v)[0] == '.',
        behind_minor(v).skip(1) == decimal(v.patch as nat) + identifiers_text(v.pre, v.build),
        identifiers_text(v.pre, v.build).len() > 0 ==> !is_digit(
            identifiers_text(v.pre, v.build)[0],
        ),
{
    let t = identifiers_text(v.pre, v.build);
    assert(v.text() =~= decimal(v.major as nat) + behind_major(v));
    assert(behind_major(v).skip(1) =~= behind_dot(v));
    assert(behind_minor(v).skip(1) =~= decimal(v.patch as nat) + t);
    if t.len() > 0 {
        assert(t[0] == '-' || t[0] == '+');
    }
}

/// Two well-formed versions with the same canonical text are the same.
pub proof fn lemma_text_injective(v: VersionView, w: VersionView)
    requires
        v.well_formed(),
        w.well_formed(),
        v.text() == w.text(),
    ensures
        v == w,
{
    lemma_text_parts(v);
    lemma_text_parts(w);
    lemma_split_number(v.major as nat, behind_major(v), w.major as nat, behind_major(w));
    lemma_split_number(v.minor as nat, behind_minor(v), w.minor as nat, behind_minor(w));
    lemma_split_number(
        v.patch as nat,
        identifiers_text(v.pre, v.build),
        w.patch as nat,
        identifiers_text(w.pre, w.build),
    );
    lemma_identifiers_text_injective(v.pre, v.build, w.pre, w.build);
}

/// A well-formed version is the one that its canonical text spells.
pub proof fn lemma_version_of_text(v: VersionView)
    requires
        v.well_formed(),
    ensures
        version_of_text(v.text()) == Some(v),
{
    reveal(version_of_text);
    assert(spells(v.text(), v));
    let w = choose|w: VersionView| spells(v.text(), w);
    lemma_text_injective(v, w);
}

/// The version that a text spells is well formed and has that text as its
/// canonical text; a text that spells no version is the canonical text of
/// no well-formed version.
pub proof fn lemma_spelled(t: Seq<char>)
    ensures
        version_of_text(t) matches Some(v) ==> spells(t, v),
        version_of_text(t) is None ==> forall|v: VersionView| !spells(t, v),
{
    reveal(version_of_text);
}

/// How `semver::Prerelease` orders two valid pre-release strings: negative,
/// zero or positive as the first is less than, equal to or greater than the
/// second.
pub uninterp spec fn prerelease_order(a: Seq<char>, b: Seq<char>) -> int;

/// How `semver::BuildMetadata` orders two valid build strings.
pub uninterp spec fn build_order(a: Seq<char>, b: Seq<char>) -> int;

pub open spec fn sign(a: u64, b: u64) -> int {
    if a < b {
        -1
    } else if a > b {
        1
    } else {
        0
    }
}

/// The order of versions, which is the one that `semver::Version` derives
/// from its fields: by major, minor and patch number, then by pre-release,
/// then by build. Negative, zero or positive as `a` is less than, equal to
/// or greater than `b`.
pub open spec fn version_order(a: VersionView, b: VersionView) -> int {
    if a.major != b.major {
        sign(a.major, b.major)
    } else if a.minor != b.minor {
        sign(a.minor, b.minor)
    } else if a.patch != b.patch {
        sign(a.patch, b.patch)
    } else if prerelease_order(a.pre, b.pre) != 0 {
        prerelease_order(a.pre, b.pre)
    } else {
        build_order(a.build, b.build)
    }
}

/// A semantic version.
#[derive(Debug, PartialEq, Eq)]
pub struct Version {
    major: u64,
    minor: u64,
    patch: u64,
    pre: String,
    build: String,
}

impl View for Version {
    type V = VersionView;

    closed spec fn view(&self) -> VersionView {
        VersionView {
            major: self.major,
            minor: self.minor,
            patch: self.patch,
            pre: self.pre@,
            build: self.build@,
        }
    }
}

impl Clone for Version {
    fn clone(&self) -> (r: Self)
        ensures
            r@ == self@,
    {
        proof {
            use_type_invariant(self);
        }
        Version {
            major: self.major,
            minor: self.minor,
            patch: self.patch,
            pre: self.pre.clone(),
            build: self.build.clone(),
        }
    }
}

/// `semver::Version::parse`, with the parts of the version it returns as
/// plain values. A text is accepted if and only if it consists of three
/// numerals without leading zeros, each at most the greatest `u64`, joined
/// by dots, optionally followed by a hyphen and valid pre-release
/// identifiers, and optionally by a plus sign and valid build identifiers.
/// The parts are stored as they are written. So a text is accepted exactly
/// if it is the canonical text of a well-formed version, and that version
/// is returned.
#[verifier::external_body]
fn parse_semver(text: &str) -> (r: Option<Version>)
    ensures
        r matches Some(v) ==> spells(text@, v@),
        r is None ==> forall|v: VersionView| !spells(text@, v),
{
    match semver::Version::parse(text) {
        Ok(v) => Some(
            Version {
                major: v.major,
                minor: v.minor,
                patch: v.patch,
                pre: v.pre.as_str().to_string(),
                build: v.build.as_str().to_string(),
            },
        ),
        Err(_) => None,
    }
}

/// The ordering of `semver::Prerelease` on two valid pre-release strings:
/// -1, 0 or 1, the result that `prerelease_order` names. It is a total
/// order: the same strings taken the other way round compare the opposite
/// way, and a string is equal to itself. The empty string, which stands
/// for a release proper, is greater than every other. The strings must be
/// valid, or `Prerelease::new` would refuse them.
#[verifier::external_body]
fn order_prerelease(a: &str, b: &str) -> (r: i8)
    requires
        valid_prerelease(a@),
        valid_prerelease(b@),
    ensures
        r == prerelease_order(a@, b@),
        -r == prerelease_order(b@, a@),
        -1 <= r <= 1,
        a@ == b@ ==> r == 0,
        a@.len() == 0 && b@.len() > 0 ==> r == 1,
{
    let x = semver::Prerelease::new(a).unwrap();
    let y = semver::Prerelease::new(b).unwrap();
    match x.cmp(&y) {
        std::cmp::Ordering::Less => -1,
        std::cmp::Ordering::Equal => 0,
        std::cmp::Ordering::Greater => 1,
    }
}

/// The ordering of `semver::BuildMetadata` on two valid build strings: -1,
/// 0 or 1, the result that `build_order` names. It is a total order: the
/// same strings taken the other way round compare the opposite way, and a
/// string is equal to itself. The strings must be valid, or
/// `BuildMetadata::new` would refuse them.
#[verifier::external_body]
fn order_build(a: &str, b: &str) -> (r: i8)
    requires
        valid_identifiers(a@),
        valid_identifiers(b@),
    ensures
        r == build_order(a@, b@),
        -r == build_order(b@, a@),
        -1 <= r <= 1,
        a@ == b@ ==> r == 0,
{
    let x = semver::BuildMetadata::new(a).unwrap();
    let y = semver::BuildMetadata::new(b).unwrap();
    match x.cmp(&y) {
        std::cmp::Ordering::Less => -1,
        std::cmp::Ordering::Equal => 0,
        std::cmp::Ordering::Greater => 1,
    }
}

fn order_numbers(a: u64, b: u64) -> (r: i8)
    ensures
        r == sign(a, b),
{
    if a < b {
        -1
    } else if a > b {
        1
    } else {
        0
    }
}

impl Version {
    #[verifier::type_invariant]
    spec fn identifiers_valid(self) -> bool {
        valid_prerelease(self.pre@) && valid_identifiers(self.build@)
    }

    /// The version `major.minor.patch`, without pre-release or build
    /// identifiers.
    pub fn new(major: u64, minor: u64, patch: u64) -> (r: Version)
        ensures
            r@ == (VersionView {
                major,
                minor,
                patch,
                pre: Seq::<char>::empty(),
                build: Seq::<char>::empty(),
            }),
            r@.well_formed(),
    {
        let pre = String::new();
        let build = String::new();
        let r = Version { major, minor, patch, pre, build };
        assert(r@.pre =~= Seq::<char>::empty());
        assert(r@.build =~= Seq::<char>::empty());
        r
    }

    /// Reads a version from its text; `None` if the text spells none.
    pub fn parse(text: &str) -> (r: Option<Version>)
        ensures
            version_of_text(text@) == (match r {
                Some(v) => Some(v@),
                None => None,
            }),
            r matches Some(v) ==> spells(text@, v@),
    {
        let r = parse_semver(text);
        proof {
            lemma_spelled(text@);
            if r is Some {
                lemma_version_of_text(r->0@);
            }
        }
        r
    }

    pub fn major(&self) -> (r: u64)
        ensures
            r == self@.major,
    {
        self.major
    }

    pub fn minor(&self) -> (r: u64)
        ensures
            r == self@.minor,
    {
        self.minor
    }

    pub fn patch(&self) -> (r: u64)
        ensures
            r == self@.patch,
    {
        self.patch
    }

    /// The pre-release identifiers, empty when there are none.
    pub fn pre(&self) -> (r: &str)
        ensures
            r@ == self@.pre,
    {
        self.pre.as_str()
    }

    /// The build identifiers, empty when there are none.
    pub fn build(&self) -> (r: &str)
        ensures
            r@ == self@.build,
    {
        self.build.as_str()
    }

    /// This version with other numbers and the same identifiers.
    pub fn with_numbers(&self, major: u64, minor: u64, patch: u64) -> (r: Version)
        ensures
            r@ == (VersionView { major, minor, patch, pre: self@.pre, build: self@.build }),
    {
        proof {
            use_type_invariant(self);
        }
        Version { major, minor, patch, pre: self.pre.clone(), build: self.build.clone() }
    }

    /// Compares two versions: -1, 0 or 1 as `self` is less than, equal to or
    /// greater than `other`.
    pub fn compare(&self, other: &Version) -> (r: i8)
        ensures
            r == version_order(self@, other@),
            -r == version_order(other@, self@),
            -1 <= r <= 1,
            self@ == other@ ==> r == 0,
            self@.major == other@.major && self@.minor == other@.minor && self@.patch
                == other@.patch && self@.pre.len() == 0 && other@.pre.len() > 0 ==> r == 1,
    {
        proof {
            use_type_invariant(self);
            use_type_invariant(other);
        }
        if self.major != other.major {
            order_numbers(self.major, other.major)
        } else if self.minor != other.minor {
            order_numbers(self.minor, other.minor)
        } else if self.patch != other.patch {
            order_numbers(self.patch, other.patch)
        } else {
            let by_pre = order_prerelease(self.pre.as_str(), other.pre.as_str());
            if by_pre != 0 {
                by_pre
            } else {
                order_build(self.build.as_str(), other.build.as_str())
            }
        }
    }

    /// Whether two versions have the same numbers and identifiers.
    pub fn same(&self, other: &Version) -> (r: bool)
        ensures
            r == (self@ == other@),
    {
        self.major == other.major && self.minor == other.minor && self.patch == other.patch
            && self.pre == other.pre && self.build == other.build
    }

    /// The canonical text of the version.
    pub fn to_string(&self) -> (s: String)
        ensures
            s@ == self@.text(),
    {
        let mut out = decimal_chars(self.major);
        out.push('.');
        let minor = decimal_chars(self.minor);
        push_all(&mut out, &minor);
        out.push('.');
        let patch = decimal_chars(self.patch);
        push_all(&mut out, &patch);
        if !self.pre.as_str().is_empty() {
            out.push('-');
            let pre = to_chars(self.pre.as_str());
            push_all(&mut out, &pre);
        }
        if !self.build.as_str().is_empty() {
            out.push('+');
            let build = to_chars(self.build.as_str());
            push_all(&mut out, &build);
        }
        assert(out@ =~= self@.text());
        from_chars(&out)
    }
}

} // verus!
