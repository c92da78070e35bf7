//! The audit: whether every dependency has a license that the configuration
//! allows.

use crate::license::{license_check, satisfied_spec};
use crate::notice_toml::{NoticeToml, NoticeTomlView};
use crate::text::{contains_str, texts};
use vstd::prelude::*;

verus! {

/// What the audit reads of a dependency: its name and the license expression
/// that it declares, if it declares one.
#[derive(Debug, PartialEq, Eq)]
pub struct Dependency {
    pub name: String,
    pub license: Option<String>,
}

/// A dependency as mathematics.
pub struct DependencyView {
    pub name: Seq<char>,
    pub license: Option<Seq<char>>,
}

impl View for Dependency {
    type V = DependencyView;

    open spec fn view(&self) -> DependencyView {
        DependencyView {
            name: self.name@,
            license: match self.license {
                Some(license) => Some(license@),
                None => None,
            },
        }
    }
}

/// How the audit finds a dependency.
#[derive(Debug, Clone, Copy, PartialEq, Eq, Structural)]
pub enum Verdict {
    /// Its license expression is satisfied by the allowed licenses.
    Passed,
    /// It declares no license and the configuration assumes none for it.
    NoLicense,
    /// Its license expression is not satisfied by the allowed licenses.
    Rejected,
}

/// The first dependency that did not pass, by its position, and how the
/// audit found it.
#[derive(Debug, Clone, Copy, PartialEq, Eq, Structural)]
pub struct CheckError {
    pub index: usize,
    pub verdict: Verdict,
}

/// The license expression that counts for a dependency: the one that the
/// configuration assumes for its name, else the one that it declares.
pub open spec fn effective_license_spec(
    notice: NoticeTomlView,
    dependency: DependencyView,
) -> Option<Seq<char>> {
    if notice.license_manual.contains_key(dependency.name) {
        Some(notice.license_manual[dependency.name])
    } else {
        dependency.license
    }
}

/// How the audit finds a dependency under a configuration.
pub open spec fn verdict_spec(notice: NoticeTomlView, dependency: DependencyView) -> Verdict {
    match effective_license_spec(notice, dependency) {
        None => Verdict::NoLicense,
        Some(license) => if satisfied_spec(license, notice.allow_license.to_set()) {
            Verdict::Passed
        } else {
            Verdict::Rejected
        },
    }
}

/// The license expression that counts for `dependency`: the one that
/// `notice` assumes for its name, else the one that it declares.
pub fn effective_license<'a>(notice: &'a NoticeToml, dependency: &'a Dependency) -> (license:
    Option<&'a str>)
    ensures
        match license {
            Some(text) => effective_license_spec(notice@, dependency@) == Some(text@),
            None => effective_license_spec(notice@, dependency@) is None,
        },
{
    match notice.manual_license(dependency.name.as_str()) {
        Some(manual) => Some(manual),
        None => match &dependency.license {
            Some(declared) => Some(declared.as_str()),
            None => None,
        },
    }
}

/// The verdict on `dependency`, with the allowed licenses of `notice` at hand
/// as string slices.
fn verdict_with(notice: &NoticeToml, allow_list: &[&str], dependency: &Dependency) -> (verdict:
    Verdict)
    requires
        texts(allow_list@) == notice@.allow_license,
    ensures
        verdict == verdict_spec(notice@, dependency@),
{
    match effective_license(notice, dependency) {
        None => Verdict::NoLicense,
        Some(license) => if license_check(license, allow_list) {
            Verdict::Passed
        } else {
            Verdict::Rejected
        },
    }
}

/// How the audit finds `dependency` under `notice`.
pub fn verdict(notice: &NoticeToml, dependency: &Dependency) -> (verdict: Verdict)
    ensures
        verdict == verdict_spec(notice@, dependency@),
{
    let allow_list = notice.allow_list();
    verdict_with(notice, allow_list.as_slice(), dependency)
}

/// Audits `dependencies` in their order under `notice`. The audit succeeds
/// when every dependency passes, and else fails with the first one that does
/// not.
pub fn check(notice: &NoticeToml, dependencies: &[Dependency]) -> (outcome: Result<(), CheckError>)
    ensures
        match outcome {
            Ok(_) => forall|i: int|
                0 <= i < dependencies@.len() ==> verdict_spec(notice@, (#[trigger] dependencies@[i])@)
                    == Verdict::Passed,
            Err(error) => {
                &&& error.index < dependencies@.len()
                &&& error.verdict == verdict_spec(notice@, dependencies@[error.index as int]@)
                &&& error.verdict != Verdict::Passed
                &&& forall|i: int|
                    0 <= i < error.index ==> verdict_spec(notice@, (#[trigger] dependencies@[i])@)
                        == Verdict::Passed
            },
        },
{
    let allow_list = notice.allow_list();
    let mut i: usize = 0;
    while i < dependencies.len()
        invariant
            i <= dependencies.len(),
            texts(allow_list@) == notice@.allow_license,
            forall|k: int|
                0 <= k < i ==> verdict_spec(notice@, (#[trigger] dependencies@[k])@)
                    == Verdict::Passed,
        decreases dependencies.len() - i,
    {
        let verdict = verdict_with(notice, allow_list.as_slice(), &dependencies[i]);
        if verdict != Verdict::Passed {
            return Err(CheckError { index: i, verdict });
        }
        i += 1;
    }
    Ok(())
}

/// Whether the package at position `i` of `ids` is none of `members`.
pub open spec fn is_outside(ids: Seq<&str>, members: Seq<&str>, i: int) -> bool {
    !texts(members).contains(ids[i]@)
}

/// The dependencies among the packages of a build: the positions, in rising
/// order, of the package identifiers `ids` that are not among those of the
/// workspace `members`.
pub fn outside_workspace(ids: &[&str], members: &[&str]) -> (outside: Vec<usize>)
    ensures
        forall|k: int|
            0 <= k < outside@.len() ==> (#[trigger] outside@[k]) < ids@.len() && is_outside(
                ids@,
                members@,
                outside@[k] as int,
            ),
        forall|j: int, k: int| 0 <= j < k < outside@.len() ==> outside@[j] < outside@[k],
        forall|i: int|
            0 <= i < ids@.len() && #[trigger] is_outside(ids@, members@, i) ==> outside@.contains(
                i as usize,
            ),
{
    let mut outside: Vec<usize> = Vec::new();
    let mut i: usize = 0;
    while i < ids.len()
        invariant
            i <= ids.len(),
            forall|k: int|
                0 <= k < outside@.len() ==> (#[trigger] outside@[k]) < i && is_outside(
                    ids@,
                    members@,
                    outside@[k] as int,
                ),
            forall|j: int, k: int| 0 <= j < k < outside@.len() ==> outside@[j] < outside@[k],
            forall|n: int|
                0 <= n < i && #[trigger] is_outside(ids@, members@, n) ==> outside@.contains(
                    n as usize,
                ),
        decreases ids.len() - i,
    {
        let ghost before = outside@;
        if !contains_str(members, ids[i]) {
            outside.push(i);
            assert(outside@[before.len() as int] == i);
        }
        assert forall|n: int|
            0 <= n < i + 1 && #[trigger] is_outside(ids@, members@, n) implies outside@.contains(
            n as usize,
        ) by {
            if n < i {
                let k = choose|k: int| 0 <= k < before.len() && before[k] == n as usize;
                assert(outside@[k] == n as usize);
            }
        }
        i += 1;
    }
    outside
}

} // verus!
