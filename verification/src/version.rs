//! Versions of an API group and their priority: stable before beta before
//! alpha before anything else, and within one of these by number.

use vstd::prelude::*;

verus! {

/// A version string, parsed.
#[derive(Clone, Copy, Debug, PartialEq, Eq, Structural)]
pub enum Version {
    /// A stable release, such as `v2`.
    Stable(u32),
    /// A beta release of a major version, such as `v2beta1`.
    Beta(u32, Option<u32>),
    /// An alpha release of a major version, such as `v2alpha1`.
    Alpha(u32, Option<u32>),
    /// A string that follows none of these patterns.
    Nonconformant,
}

/// What `kube_core::Version::parse` makes of a version string.
pub uninterp spec fn parsed_version(v: Seq<char>) -> Version;

/// `kube_core::Version::parse`: the parsed form of a version string. The text
/// that a nonconformant version carries there is the string itself, and is
/// left out here.
#[verifier::external_body]
pub(crate) fn parse_version(v: &str) -> (r: Version)
    ensures
        r == parsed_version(v@),
{
    match kube_core::Version::parse(v) {
        kube_core::Version::Stable(major) => Version::Stable(major),
        kube_core::Version::Beta(major, minor) => Version::Beta(major, minor),
        kube_core::Version::Alpha(major, minor) => Version::Alpha(major, minor),
        kube_core::Version::Nonconformant(_) => Version::Nonconformant,
    }
}

/// Whether `a` comes before `b` in the order of texts: at the first place
/// where the two differ `a` has the smaller character, or `a` ends there and
/// `b` goes on.
pub open spec fn text_less(a: Seq<char>, b: Seq<char>) -> bool
    decreases a.len(),
{
    if b.len() == 0 {
        false
    } else if a.len() == 0 {
        true
    } else if a[0] != b[0] {
        (a[0] as int) < (b[0] as int)
    } else {
        text_less(a.drop_first(), b.drop_first())
    }
}

/// The `<` of std on `str`: the order of texts by their characters.
#[verifier::external_body]
pub(crate) fn str_less(a: &str, b: &str) -> (r: bool)
    ensures
        r == text_less(a@, b@),
{
    a < b
}

/// No text comes before itself.
pub proof fn lemma_text_less_irreflexive(a: Seq<char>)
    ensures
        !text_less(a, a),
    decreases a.len(),
{
    if a.len() > 0 {
        lemma_text_less_irreflexive(a.drop_first());
    }
}

/// The order of texts is transitive.
pub proof fn lemma_text_less_transitive(a: Seq<char>, b: Seq<char>, c: Seq<char>)
    requires
        text_less(a, b),
        text_less(b, c),
    ensures
        text_less(a, c),
    decreases a.len(),
{
    if a.len() > 0 && b.len() > 0 && c.len() > 0 {
        if a[0] == b[0] && b[0] == c[0] {
            lemma_text_less_transitive(a.drop_first(), b.drop_first(), c.drop_first());
        }
    }
}

/// Of two different texts one comes before the other.
pub proof fn lemma_text_less_total(a: Seq<char>, b: Seq<char>)
    ensures
        a == b || text_less(a, b) || text_less(b, a),
    decreases a.len(),
{
    if a.len() > 0 && b.len() > 0 {
        if a[0] == b[0] {
            lemma_text_less_total(a.drop_first(), b.drop_first());
            if a.drop_first() == b.drop_first() {
                assert(a =~= seq![a[0]] + a.drop_first());
                assert(b =~= seq![b[0]] + b.drop_first());
            }
        } else {
            assert(a[0] as int != b[0] as int);
        }
    } else if a.len() == 0 && b.len() == 0 {
        assert(a =~= b);
    }
}

/// How stable a version is: 3 for a stable one, 2 for beta, 1 for alpha and 0
/// for a nonconformant one.
pub open spec fn stability(v: Version) -> int {
    match v {
        Version::Stable(_) => 3,
        Version::Beta(_, _) => 2,
        Version::Alpha(_, _) => 1,
        Version::Nonconformant => 0,
    }
}

/// The major number of a version; 0 for a nonconformant one.
pub open spec fn major(v: Version) -> int {
    match v {
        Version::Stable(major) => major as int,
        Version::Beta(major, _) => major as int,
        Version::Alpha(major, _) => major as int,
        Version::Nonconformant => 0,
    }
}

/// The number of a pre-release, counted from 1 so that a pre-release without
/// a number, which comes below every numbered one, has 0; 0 as well for the
/// versions that have no such number.
pub open spec fn minor(v: Version) -> int {
    match v {
        Version::Beta(_, Some(minor)) => minor + 1,
        Version::Alpha(_, Some(minor)) => minor + 1,
        _ => 0,
    }
}

/// Whether the version `va`, written `a`, has a higher priority than the
/// version `vb`, written `b`: it is more stable; or as stable, with a greater
/// major number; or equal in these, with a greater pre-release number; or both
/// are nonconformant, and `a` comes before `b` in the order of texts.
pub open spec fn outranks(va: Version, a: Seq<char>, vb: Version, b: Seq<char>) -> bool {
    if stability(va) != stability(vb) {
        stability(va) > stability(vb)
    } else if major(va) != major(vb) {
        major(va) > major(vb)
    } else if minor(va) != minor(vb) {
        minor(va) > minor(vb)
    } else {
        va == Version::Nonconformant && text_less(a, b)
    }
}

/// Whether the version written `a` has a higher priority than the one written
/// `b`, each read as `kube_core::Version::parse` reads it.
pub open spec fn higher_priority(a: Seq<char>, b: Seq<char>) -> bool {
    outranks(parsed_version(a), a, parsed_version(b), b)
}

/// Priority is a strict order in which any two versions compare or are of
/// equal priority, and to be of equal priority is transitive.
pub proof fn lemma_priority_is_an_order(a: Seq<char>, b: Seq<char>, c: Seq<char>)
    ensures
        !higher_priority(a, a),
        higher_priority(a, b) ==> !higher_priority(b, a),
        higher_priority(a, b) && higher_priority(b, c) ==> higher_priority(a, c),
        !higher_priority(a, b) && !higher_priority(b, c) ==> !higher_priority(a, c),
{
    lemma_text_less_irreflexive(a);
    if text_less(a, b) && text_less(b, a) {
        lemma_text_less_transitive(a, b, a);
    }
    if text_less(a, b) && text_less(b, c) {
        lemma_text_less_transitive(a, b, c);
    }
    lemma_text_less_total(a, b);
    lemma_text_less_total(b, c);
    if text_less(a, c) && text_less(c, b) {
        lemma_text_less_transitive(a, c, b);
    }
    if text_less(b, a) && text_less(a, c) {
        lemma_text_less_transitive(b, a, c);
    }
}

/// A stable version has a higher priority than any version that is not
/// stable, and a pre-release a higher one than any nonconformant version.
pub proof fn lemma_stable_comes_first(a: Seq<char>, b: Seq<char>)
    ensures
        parsed_version(a) is Stable && !(parsed_version(b) is Stable) ==> higher_priority(a, b),
        parsed_version(a) is Beta && (parsed_version(b) is Alpha || parsed_version(b)
            is Nonconformant) ==> higher_priority(a, b),
        parsed_version(a) is Alpha && parsed_version(b) is Nonconformant ==> higher_priority(a, b),
{
}

fn stability_of(v: Version) -> (r: u8)
    ensures
        r as int == stability(v),
{
    match v {
        Version::Stable(_) => 3,
        Version::Beta(_, _) => 2,
        Version::Alpha(_, _) => 1,
        Version::Nonconformant => 0,
    }
}

fn major_of(v: Version) -> (r: u32)
    ensures
        r as int == major(v),
{
    match v {
        Version::Stable(major) => major,
        Version::Beta(major, _) => major,
        Version::Alpha(major, _) => major,
        Version::Nonconformant => 0,
    }
}

fn minor_of(v: Version) -> (r: u64)
    ensures
        r as int == minor(v),
{
    match v {
        Version::Beta(_, Some(minor)) => minor as u64 + 1,
        Version::Alpha(_, Some(minor)) => minor as u64 + 1,
        _ => 0,
    }
}

/// Whether the version `va`, written `a`, has a higher priority than the
/// version `vb`, written `b`.
pub fn compare_priority(va: Version, a: &str, vb: Version, b: &str) -> (r: bool)
    ensures
        r == outranks(va, a@, vb, b@),
{
    if stability_of(va) != stability_of(vb) {
        stability_of(va) > stability_of(vb)
    } else if major_of(va) != major_of(vb) {
        major_of(va) > major_of(vb)
    } else if minor_of(va) != minor_of(vb) {
        minor_of(va) > minor_of(vb)
    } else {
        match va {
            Version::Nonconformant => str_less(a, b),
            _ => false,
        }
    }
}

/// Whether the version written `a` has a higher priority than the one written
/// `b`.
pub fn has_higher_priority(a: &str, b: &str) -> (r: bool)
    ensures
        r == higher_priority(a@, b@),
{
    compare_priority(parse_version(a), a, parse_version(b), b)
}

} // verus!
