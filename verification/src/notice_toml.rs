//! The configuration of an audit: which licenses are allowed, and which
//! license to assume for a crate in place of the one it declares.

use crate::text::str_eq;
use vstd::prelude::*;

verus! {

/// The configuration of an audit. `license_manual` holds pairs of a crate's
/// name and the license expression to assume for it. A configuration is well
/// formed (`wf`) when no name stands twice; where one does, its first pair
/// counts.
#[derive(Debug, PartialEq, Eq)]
pub struct NoticeToml {
    pub allow_license: Vec<String>,
    pub license_manual: Vec<(String, String)>,
}

/// A configuration as mathematics: the allowed identifiers in their order,
/// and the map from a crate's name to the expression assumed for it.
pub struct NoticeTomlView {
    pub allow_license: Seq<Seq<char>>,
    pub license_manual: Map<Seq<char>, Seq<char>>,
}

/// The characters of each of `strings`.
pub open spec fn strings_view(strings: Seq<String>) -> Seq<Seq<char>> {
    strings.map_values(|s: String| s@)
}

/// The map that `entries` spell: each name with the expression of the first
/// pair that holds it.
pub open spec fn manual_map(entries: Seq<(String, String)>) -> Map<Seq<char>, Seq<char>>
    decreases entries.len(),
{
    if entries.len() == 0 {
        Map::empty()
    } else {
        manual_map(entries.drop_first()).insert(entries.first().0@, entries.first().1@)
    }
}

impl View for NoticeToml {
    type V = NoticeTomlView;

    open spec fn view(&self) -> NoticeTomlView {
        NoticeTomlView {
            allow_license: strings_view(self.allow_license@),
            license_manual: manual_map(self.license_manual@),
        }
    }
}

impl NoticeToml {
    /// Whether no crate is named twice in `license_manual`, so that every
    /// pair counts.
    pub open spec fn wf(&self) -> bool {
        forall|i: int, j: int|
            0 <= i < j < self.license_manual@.len() ==> (#[trigger] self.license_manual@[i]).0@
                != (#[trigger] self.license_manual@[j]).0@
    }

    /// A configuration that allows `allow_license` and assumes nothing.
    pub fn new(allow_license: Vec<String>) -> (notice: NoticeToml)
        ensures
            notice.wf(),
            notice@.allow_license == strings_view(allow_license@),
            notice@.license_manual == Map::<Seq<char>, Seq<char>>::empty(),
    {
        NoticeToml { allow_license, license_manual: Vec::new() }
    }

    /// The allowed identifiers as string slices, in their order.
    pub fn allow_list(&self) -> (list: Vec<&str>)
        ensures
            crate::text::texts(list@) == self@.allow_license,
    {
        let mut list: Vec<&str> = Vec::new();
        let mut i: usize = 0;
        while i < self.allow_license.len()
            invariant
                i <= self.allow_license.len(),
                list.len() == i,
                forall|k: int| 0 <= k < i ==> (#[trigger] list@[k])@ == self.allow_license@[k]@,
            decreases self.allow_license.len() - i,
        {
            list.push(self.allow_license[i].as_str());
            i += 1;
        }
        list
    }

    /// The license expression to assume for the crate `name`, if the
    /// configuration names one.
    pub fn manual_license(&self, name: &str) -> (found: Option<&str>)
        ensures
            match found {
                Some(license) => self@.license_manual.contains_key(name@)
                    && self@.license_manual[name@] == license@,
                None => !self@.license_manual.contains_key(name@),
            },
    {
        let mut i: usize = 0;
        assert(self.license_manual@.skip(0) =~= self.license_manual@);
        while i < self.license_manual.len()
            invariant
                i <= self.license_manual.len(),
                manual_map(self.license_manual@).contains_key(name@) == manual_map(
                    self.license_manual@.skip(i as int),
                ).contains_key(name@),
                manual_map(self.license_manual@).contains_key(name@) ==> manual_map(
                    self.license_manual@,
                )[name@] == manual_map(self.license_manual@.skip(i as int))[name@],
            decreases self.license_manual.len() - i,
        {
            assert(self.license_manual@.skip(i as int).drop_first() =~= self.license_manual@.skip(
                i + 1,
            ));
            let entry = &self.license_manual[i];
            if str_eq(entry.0.as_str(), name) {
                return Some(entry.1.as_str());
            }
            i += 1;
        }
        None
    }
}

/// In a well-formed configuration every pair counts: each name is mapped to
/// the expression that stands beside it.
pub proof fn lemma_every_pair_counts(notice: NoticeToml, i: int)
    requires
        notice.wf(),
        0 <= i < notice.license_manual@.len(),
    ensures
        notice@.license_manual.contains_key(notice.license_manual@[i].0@),
        notice@.license_manual[notice.license_manual@[i].0@] == notice.license_manual@[i].1@,
{
    lemma_pair_counts(notice.license_manual@, i);
}

/// A pair whose name no earlier pair holds is in the map.
proof fn lemma_pair_counts(entries: Seq<(String, String)>, i: int)
    requires
        0 <= i < entries.len(),
        forall|j: int| 0 <= j < i ==> (#[trigger] entries[j]).0@ != entries[i].0@,
    ensures
        manual_map(entries).contains_key(entries[i].0@),
        manual_map(entries)[entries[i].0@] == entries[i].1@,
    decreases i,
{
    if i > 0 {
        let rest = entries.drop_first();
        assert forall|j: int| 0 <= j < i - 1 implies (#[trigger] rest[j]).0@ != rest[i - 1].0@ by {}
        lemma_pair_counts(rest, i - 1);
    }
}

} // verus!
