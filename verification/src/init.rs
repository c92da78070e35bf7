//! The first setup: which licenses the dependencies name, for a user to
//! choose the allowed ones from.

use crate::license::{license_spec, parse};
use crate::notice_toml::strings_view;
use crate::parser::{nodes_of, LicenseParsed, Node};
use crate::text::str_eq;
use vstd::prelude::*;

verus! {

/// Whether `id` is one of `found`, character for character.
pub fn holds(found: &Vec<String>, id: &str) -> (held: bool)
    ensures
        held == strings_view(found@).contains(id@),
{
    let mut i: usize = 0;
    while i < found.len()
        invariant
            i <= found.len(),
            forall|k: int| 0 <= k < i ==> strings_view(found@)[k] != id@,
        decreases found.len() - i,
    {
        if str_eq(found[i].as_str(), id) {
            assert(strings_view(found@)[i as int] == id@);
            return true;
        }
        i += 1;
    }
    false
}

/// `found` with each identifier at the top level of `nodes` appended that was
/// not yet in it, in the order of `nodes`.
pub open spec fn add_top_level_spec(found: Seq<Seq<char>>, nodes: Seq<Node>) -> Seq<Seq<char>>
    decreases nodes.len(),
{
    if nodes.len() == 0 {
        found
    } else {
        let before = add_top_level_spec(found, nodes.drop_last());
        match nodes.last() {
            Node::License(id) => if before.contains(id) {
                before
            } else {
                before.push(id)
            },
            _ => before,
        }
    }
}

/// Appends to `found` each identifier at the top level of `parsed` that it
/// does not hold yet. What stands inside a group is not looked at.
pub fn add_top_level<'a>(found: &mut Vec<String>, parsed: &[LicenseParsed<'a>])
    requires
        strings_view(old(found)@).no_duplicates(),
    ensures
        strings_view(final(found)@) == add_top_level_spec(
            strings_view(old(found)@),
            nodes_of(parsed@),
        ),
        strings_view(final(found)@).no_duplicates(),
        strings_view(old(found)@).is_prefix_of(strings_view(final(found)@)),
        forall|id: Seq<char>|
            strings_view(final(found)@).contains(id) <==> strings_view(old(found)@).contains(id)
                || nodes_of(parsed@).contains(Node::License(id)),
{
    let ghost nodes = nodes_of(parsed@);
    let mut i: usize = 0;
    while i < parsed.len()
        invariant
            i <= parsed.len(),
            nodes == nodes_of(parsed@),
            strings_view(found@) == add_top_level_spec(
                strings_view(old(found)@),
                nodes.take(i as int),
            ),
            strings_view(found@).no_duplicates(),
            strings_view(old(found)@).is_prefix_of(strings_view(found@)),
            forall|id: Seq<char>|
                strings_view(found@).contains(id) <==> strings_view(old(found)@).contains(id)
                    || nodes.take(i as int).contains(Node::License(id)),
        decreases parsed.len() - i,
    {
        let ghost before = strings_view(found@);
        let ghost seen = nodes.take(i as int);
        assert(nodes.take(i + 1).drop_last() =~= seen);
        if let LicenseParsed::License(l) = &parsed[i] {
            let id: &str = *l;
            if !holds(found, id) {
                found.push(id.to_owned());
                assert(strings_view(found@) =~= before.push(l@));
            }
        }
        assert forall|id: Seq<char>|
            strings_view(found@).contains(id) <==> strings_view(old(found)@).contains(id)
                || nodes.take(i + 1).contains(Node::License(id)) by {
            let next = nodes.take(i + 1);
            if strings_view(found@).contains(id) && !before.contains(id) {
                assert(next[i as int] == Node::License(id));
            }
            if before.contains(id) {
                let k = choose|k: int| 0 <= k < before.len() && before[k] == id;
                assert(strings_view(found@)[k] == id);
            }
            if next.contains(Node::License(id)) && !seen.contains(Node::License(id))
                && !before.contains(id) {
                assert(strings_view(found@)[before.len() as int] == id);
            }
        }
        i += 1;
    }
    assert(nodes.take(i as int) =~= nodes);
}

/// The identifiers at the top level of the license expressions `licenses`,
/// each once, in the order in which they come up.
pub open spec fn offered_spec(licenses: Seq<&str>) -> Seq<Seq<char>>
    decreases licenses.len(),
{
    if licenses.len() == 0 {
        Seq::empty()
    } else {
        add_top_level_spec(offered_spec(licenses.drop_last()), license_spec(licenses.last()@))
    }
}

/// Whether `id` stands at the top level of one of the license expressions
/// `licenses`.
pub open spec fn is_named(licenses: Seq<&str>, id: Seq<char>) -> bool {
    exists|k: int|
        0 <= k < licenses.len() && #[trigger] license_spec(licenses[k]@).contains(Node::License(id))
}

/// The licenses to choose from: each identifier that stands at the top level
/// of one of `licenses`, once, in the order in which they come up.
pub fn offered_licenses(licenses: &[&str]) -> (offered: Vec<String>)
    ensures
        strings_view(offered@) == offered_spec(licenses@),
        strings_view(offered@).no_duplicates(),
        forall|id: Seq<char>| strings_view(offered@).contains(id) <==> is_named(licenses@, id),
{
    let mut offered: Vec<String> = Vec::new();
    let mut i: usize = 0;
    while i < licenses.len()
        invariant
            i <= licenses.len(),
            strings_view(offered@) == offered_spec(licenses@.take(i as int)),
            strings_view(offered@).no_duplicates(),
            forall|id: Seq<char>|
                strings_view(offered@).contains(id) <==> is_named(licenses@.take(i as int), id),
        decreases licenses.len() - i,
    {
        let ghost next = licenses@.take(i + 1);
        assert(next.drop_last() =~= licenses@.take(i as int));
        let parsed = parse(licenses[i]);
        add_top_level(&mut offered, parsed.as_slice());
        assert forall|id: Seq<char>|
            strings_view(offered@).contains(id) <==> is_named(next, id) by {
            let here = license_spec(licenses@[i as int]@);
            if here.contains(Node::License(id)) {
                assert(license_spec(next[i as int]@).contains(Node::License(id)));
            }
        }
        i += 1;
    }
    assert(licenses@.take(i as int) =~= licenses@);
    offered
}

/// The licenses that a user chose: of `options`, those at the positions
/// `selections`, in the order of the choice.
pub fn selected_licenses(options: &Vec<String>, selections: &[usize]) -> (chosen: Vec<String>)
    requires
        forall|k: int| 0 <= k < selections@.len() ==> selections@[k] < options@.len(),
    ensures
        chosen@.len() == selections@.len(),
        forall|k: int|
            0 <= k < selections@.len() ==> (#[trigger] chosen@[k])@
                == options@[selections@[k] as int]@,
{
    let mut chosen: Vec<String> = Vec::new();
    let mut i: usize = 0;
    while i < selections.len()
        invariant
            i <= selections.len(),
            chosen@.len() == i,
            forall|k: int| 0 <= k < selections@.len() ==> selections@[k] < options@.len(),
            forall|k: int|
                0 <= k < i ==> (#[trigger] chosen@[k])@ == options@[selections@[k] as int]@,
        decreases selections.len() - i,
    {
        chosen.push(options[selections[i]].clone());
        i += 1;
    }
    chosen
}

} // verus!
