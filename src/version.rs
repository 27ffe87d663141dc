use vstd::prelude::*;

verus! {

/// `semver::Version::parse` accepts the text.
pub uninterp spec fn semver_valid(text: Seq<char>) -> bool;

/// What `semver::Version::cmp_precedence` says of two valid versions: -1, 0 or
/// 1 as the first comes before, level with, or after the second.
pub uninterp spec fn semver_order(a: Seq<char>, b: Seq<char>) -> i8;

/// Relies on semver's `Version::parse` (SemVer 2.0.0 syntax) to read both
/// texts, and on `Version::cmp_precedence` to order them by SemVer precedence,
/// build metadata ignored. Both depend on the texts alone.
#[verifier::external_body]
pub(crate) fn compare_semver(a: &str, b: &str) -> (r: Option<i8>)
    ensures
        r is Some == (semver_valid(a@) && semver_valid(b@)),
        r matches Some(c) ==> c == semver_order(a@, b@) && -1 <= c <= 1,
{
    match (semver::Version::parse(a), semver::Version::parse(b)) {
        (Ok(x), Ok(y)) => Some(
            match x.cmp_precedence(&y) {
                std::cmp::Ordering::Less => -1,
                std::cmp::Ordering::Equal => 0,
                std::cmp::Ordering::Greater => 1,
            },
        ),
        _ => None,
    }
}

/// `newer` is a valid version with higher precedence than the valid `older`.
pub open spec fn semver_newer(newer: Seq<char>, older: Seq<char>) -> bool {
    semver_valid(newer) && semver_valid(older) && semver_order(newer, older) == 1
}

} // verus!
