//! Semantic versions as plain values.
//!
//! A [`SemVer`] holds the three numeric components of a version together
//! with its prerelease identifier (empty when the version is a full
//! release).  Build metadata is not modelled: the planner always clears it,
//! so no decision in this crate ever depends on it.

use vstd::prelude::*;

verus! {

/// A semantic version: three numeric components and a prerelease
/// identifier.  An empty `pre` means a full release.
#[derive(Debug, Clone)]
pub struct SemVer {
    pub major: u64,
    pub minor: u64,
    pub patch: u64,
    pub pre: String,
}

/// Mathematical image of a [`SemVer`].
pub struct SemVerView {
    pub major: u64,
    pub minor: u64,
    pub patch: u64,
    pub pre: Seq<char>,
}

impl View for SemVer {
    type V = SemVerView;

    open spec fn view(&self) -> SemVerView {
        SemVerView { major: self.major, minor: self.minor, patch: self.patch, pre: self.pre@ }
    }
}

impl SemVerView {
    /// Structural equality of two version images.
    pub open spec fn eq(self, other: SemVerView) -> bool {
        &&& self.major == other.major
        &&& self.minor == other.minor
        &&& self.patch == other.patch
        &&& self.pre == other.pre
    }

    /// Equality of the numeric components alone.
    pub open spec fn same_triple(self, other: SemVerView) -> bool {
        self.major == other.major && self.minor == other.minor && self.patch == other.patch
    }

    /// Strict order on the numeric components, most significant first.
    pub open spec fn triple_lt(self, other: SemVerView) -> bool {
        ||| self.major < other.major
        ||| (self.major == other.major && self.minor < other.minor)
        ||| (self.major == other.major && self.minor == other.minor && self.patch < other.patch)
    }

    /// Strict order on versions.  A prerelease precedes the full release
    /// with the same numeric components; two distinct nonempty prerelease
    /// identifiers on the same components are not ordered here, because no
    /// decision in this crate compares two such versions.
    pub open spec fn lt(self, other: SemVerView) -> bool {
        ||| self.triple_lt(other)
        ||| (self.same_triple(other) && self.pre.len() > 0 && other.pre.len() == 0)
    }

    /// Non-strict order on versions.
    pub open spec fn le(self, other: SemVerView) -> bool {
        self.lt(other) || self.eq(other)
    }

    /// Whether `self` is a full release (no prerelease identifier).
    pub open spec fn is_release(self) -> bool {
        self.pre.len() == 0
    }

    /// `other` can replace `self` without a breaking change: the major
    /// components agree, and for `0.x` versions the minor components agree
    /// as well (`0.x` treats the minor component as the breaking one).
    pub open spec fn compatible(self, other: SemVerView) -> bool {
        self.major == other.major && (self.major != 0 ==> true) && (self.major == 0
            ==> self.minor == other.minor)
    }

    /// The same version with the prerelease identifier removed.
    pub open spec fn stripped(self) -> SemVerView {
        SemVerView { pre: Seq::<char>::empty(), ..self }
    }
}

impl SemVer {
    /// A version built from its numeric components, as a full release.
    pub fn release(major: u64, minor: u64, patch: u64) -> (r: SemVer)
        ensures
            r@.major == major,
            r@.minor == minor,
            r@.patch == patch,
            r@.pre.len() == 0,
    {
        SemVer { major, minor, patch, pre: String::new() }
    }

    /// A copy whose view equals this one's.
    pub fn duplicate(&self) -> (r: SemVer)
        ensures
            r@ == self@,
    {
        SemVer { major: self.major, minor: self.minor, patch: self.patch, pre: self.pre.clone() }
    }

    /// A copy with the prerelease identifier removed.
    pub fn strip_pre(&self) -> (r: SemVer)
        ensures
            r@ == self@.stripped(),
    {
        let r = SemVer { major: self.major, minor: self.minor, patch: self.patch, pre: String::new() };
        proof {
            assert(r@.pre =~= self@.stripped().pre);
        }
        r
    }

    /// Whether this version is a full release.
    pub fn is_release(&self) -> (r: bool)
        ensures
            r == self@.is_release(),
    {
        self.pre.as_str().is_empty()
    }

    /// Structural equality.
    pub fn same(&self, other: &SemVer) -> (r: bool)
        ensures
            r == self@.eq(other@),
    {
        self.major == other.major && self.minor == other.minor && self.patch == other.patch
            && self.pre == other.pre
    }

    /// Strict order, as [`SemVerView::lt`].
    pub fn lt(&self, other: &SemVer) -> (r: bool)
        ensures
            r == self@.lt(other@),
    {
        if self.major != other.major {
            self.major < other.major
        } else if self.minor != other.minor {
            self.minor < other.minor
        } else if self.patch != other.patch {
            self.patch < other.patch
        } else {
            !self.pre.as_str().is_empty() && other.pre.as_str().is_empty()
        }
    }

    /// Non-strict order, as [`SemVerView::le`].
    pub fn le(&self, other: &SemVer) -> (r: bool)
        ensures
            r == self@.le(other@),
    {
        self.lt(other) || self.same(other)
    }

    /// Whether adopting `other` in place of `self` is a compatible change.
    pub fn compatible(&self, other: &SemVer) -> (r: bool)
        ensures
            r == self@.compatible(other@),
    {
        self.major == other.major && (self.major != 0 || self.minor == other.minor)
    }
}

/// The numeric components after a breaking bump.  For a `0.x` version the
/// minor component is the breaking one, so it is incremented and the patch
/// zeroed; otherwise the major component is incremented and the lower
/// components zeroed.  A component already at the numeric limit leaves the
/// version unchanged rather than wrapping.
pub open spec fn spec_bump_breaking(v: SemVerView) -> SemVerView {
    if v.major == 0 {
        if v.minor == u64::MAX {
            v.stripped()
        } else {
            SemVerView { major: 0, minor: (v.minor + 1) as u64, patch: 0, pre: Seq::empty() }
        }
    } else {
        if v.major == u64::MAX {
            v.stripped()
        } else {
            SemVerView { major: (v.major + 1) as u64, minor: 0, patch: 0, pre: Seq::empty() }
        }
    }
}

/// The numeric components after a compatible (feature-level) bump.  For a
/// `0.x` version a compatible change only moves the patch component.
pub open spec fn spec_bump_minor(v: SemVerView) -> SemVerView {
    if v.major == 0 {
        if v.patch == u64::MAX {
            v.stripped()
        } else {
            SemVerView { patch: (v.patch + 1) as u64, pre: Seq::empty(), ..v }
        }
    } else {
        if v.minor == u64::MAX {
            v.stripped()
        } else {
            SemVerView { minor: (v.minor + 1) as u64, patch: 0, pre: Seq::empty(), ..v }
        }
    }
}

/// The numeric components after a patch-level bump.
pub open spec fn spec_bump_patch(v: SemVerView) -> SemVerView {
    if v.patch == u64::MAX {
        v.stripped()
    } else {
        SemVerView { patch: (v.patch + 1) as u64, pre: Seq::empty(), ..v }
    }
}

/// Every bump yields a version at least as large as its input, and a
/// breaking bump from `0.3.2` yields `0.4.0` while one from `1.2.3`
/// yields `2.0.0`: the `0.x` rule.
pub proof fn lemma_bump_monotone(v: SemVerView)
    ensures
        v.le(spec_bump_breaking(v)),
        v.le(spec_bump_minor(v)),
        v.le(spec_bump_patch(v)),
{
    assert(v.pre.len() == 0 ==> v.pre =~= Seq::<char>::empty());
}

impl SemVer {
    /// The version after a breaking bump, as [`spec_bump_breaking`].
    pub fn bump_breaking(&self) -> (r: SemVer)
        ensures
            r@ == spec_bump_breaking(self@),
    {
        let r = if self.major == 0 {
            if self.minor == u64::MAX {
                self.strip_pre()
            } else {
                SemVer::release(0, self.minor + 1, 0)
            }
        } else {
            if self.major == u64::MAX {
                self.strip_pre()
            } else {
                SemVer::release(self.major + 1, 0, 0)
            }
        };
        proof {
            assert(r@.pre =~= spec_bump_breaking(self@).pre);
        }
        r
    }

    /// The version after a compatible bump, as [`spec_bump_minor`].
    pub fn bump_minor(&self) -> (r: SemVer)
        ensures
            r@ == spec_bump_minor(self@),
    {
        let r = if self.major == 0 {
            if self.patch == u64::MAX {
                self.strip_pre()
            } else {
                SemVer::release(self.major, self.minor, self.patch + 1)
            }
        } else {
            if self.minor == u64::MAX {
                self.strip_pre()
            } else {
                SemVer::release(self.major, self.minor + 1, 0)
            }
        };
        proof {
            assert(r@.pre =~= spec_bump_minor(self@).pre);
        }
        r
    }

    /// The version after a patch bump, as [`spec_bump_patch`].
    pub fn bump_patch(&self) -> (r: SemVer)
        ensures
            r@ == spec_bump_patch(self@),
    {
        let r = if self.patch == u64::MAX {
            self.strip_pre()
        } else {
            SemVer::release(self.major, self.minor, self.patch + 1)
        };
        proof {
            assert(r@.pre =~= spec_bump_patch(self@).pre);
        }
        r
    }
}

/// The character for a single decimal digit.
pub open spec fn dec_digit(d: int) -> char {
    if d == 0 {
        '0'
    } else if d == 1 {
        '1'
    } else if d == 2 {
        '2'
    } else if d == 3 {
        '3'
    } else if d == 4 {
        '4'
    } else if d == 5 {
        '5'
    } else if d == 6 {
        '6'
    } else if d == 7 {
        '7'
    } else if d == 8 {
        '8'
    } else {
        '9'
    }
}

/// The decimal representation of a number, most significant digit first,
/// with no leading zeros (a single `'0'` for zero).
pub open spec fn dec_seq(n: int) -> Seq<char>
    decreases n,
{
    if n < 10 {
        seq![dec_digit(n)]
    } else {
        dec_seq(n / 10).push(dec_digit(n % 10))
    }
}

/// The string for a single decimal digit.
fn digit_str(d: u64) -> (r: &'static str)
    requires
        d < 10,
    ensures
        r@ =~= seq![dec_digit(d as int)],
{
    proof {
        reveal_strlit("0");
        reveal_strlit("1");
        reveal_strlit("2");
        reveal_strlit("3");
        reveal_strlit("4");
        reveal_strlit("5");
        reveal_strlit("6");
        reveal_strlit("7");
        reveal_strlit("8");
        reveal_strlit("9");
    }
    match d {
        0 => "0",
        1 => "1",
        2 => "2",
        3 => "3",
        4 => "4",
        5 => "5",
        6 => "6",
        7 => "7",
        8 => "8",
        _ => "9",
    }
}

/// The decimal rendering of a number, as [`dec_seq`].
pub fn u64_to_dec(n: u64) -> (s: String)
    ensures
        s@ == dec_seq(n as int),
    decreases n,
{
    if n < 10 {
        let s = digit_str(n).to_owned();
        proof {
            assert(s@ =~= dec_seq(n as int));
        }
        s
    } else {
        let mut s = u64_to_dec(n / 10);
        s.append(digit_str(n % 10));
        proof {
            assert(s@ =~= dec_seq(n as int));
        }
        s
    }
}

/// The canonical rendering of a version image: the three numeric
/// components joined by dots, followed by `-pre` when a prerelease
/// identifier is present.
pub open spec fn spec_render(v: SemVerView) -> Seq<char> {
    let triple = dec_seq(v.major as int) + seq!['.'] + dec_seq(v.minor as int) + seq!['.']
        + dec_seq(v.patch as int);
    if v.pre.len() == 0 {
        triple
    } else {
        triple + seq!['-'] + v.pre
    }
}

impl SemVer {
    /// The canonical rendering of this version, as [`spec_render`].
    pub fn render(&self) -> (s: String)
        ensures
            s@ == spec_render(self@),
    {
        proof {
            reveal_strlit(".");
            reveal_strlit("-");
        }
        let mut s = u64_to_dec(self.major);
        s.append(".");
        s.append(u64_to_dec(self.minor).as_str());
        s.append(".");
        s.append(u64_to_dec(self.patch).as_str());
        if !self.pre.as_str().is_empty() {
            s.append("-");
            s.append(self.pre.as_str());
        }
        proof {
            assert(s@ =~= spec_render(self@));
        }
        s
    }
}

/// What `semver`'s parser yields on a string: the numeric components and
/// the prerelease identifier, or nothing when the string is not a valid
/// version.  Build metadata is dropped.
pub uninterp spec fn sem_parse(s: Seq<char>) -> Option<(u64, u64, u64, Seq<char>)>;

/// Relies on `semver::Version::parse`, a deterministic function of the
/// string alone: yields the parsed components, or `None` when the string
/// is not a valid semantic version.  Build metadata is discarded, as the
/// planner never reads it.
#[verifier::external_body]
pub fn parse_version(s: &str) -> (r: Option<SemVer>)
    ensures
        match r {
            Some(v) => sem_parse(s@) == Some((v.major, v.minor, v.patch, v.pre@)),
            None => sem_parse(s@) is None,
        },
{
    match semver::Version::parse(s) {
        Ok(v) => Some(
            SemVer {
                major: v.major,
                minor: v.minor,
                patch: v.patch,
                pre: v.pre.as_str().to_string(),
            },
        ),
        Err(_) => None,
    }
}

/// Whether `semver` accepts a string as a prerelease identifier; a
/// deterministic function of the string alone.
pub uninterp spec fn pre_ok(s: Seq<char>) -> bool;

/// Relies on `semver::Prerelease::new`: tells whether the string is a
/// well-formed prerelease identifier.
#[verifier::external_body]
pub fn prerelease_ok(s: &str) -> (r: bool)
    ensures
        r == pre_ok(s@),
{
    semver::Prerelease::new(s).is_ok()
}

} // verus!
