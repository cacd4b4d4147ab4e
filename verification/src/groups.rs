//! Field groups: the insertion-ordered map from response key to the fields
//! selected under that key.
use vstd::prelude::*;
use indexmap::IndexMap;
use crate::ast::{Field, FieldModel};
use crate::fields::{append_group, group_keyed, group_position};
use crate::util::{first_match, lemma_first_match, lemma_first_match_mapped, models};

verus! {

/// `indexmap::IndexMap`: a hash map that keeps its entries in the order in
/// which their keys were first inserted. Nothing is known of a map but what
/// the functions below say of it.
#[verifier::external_type_specification]
#[verifier::external_body]
#[verifier::reject_recursive_types(K)]
#[verifier::reject_recursive_types(V)]
#[verifier::reject_recursive_types(S)]
pub struct ExIndexMap<K, V, S>(IndexMap<K, V, S>);

/// The entries of a map of field groups, in the map's order: what
/// `IndexMap::iter` would walk through.
pub uninterp spec fn grouped(map: IndexMap<String, Vec<Field>>) -> Seq<(String, Vec<Field>)>;

/// The position in `entries` of the entry whose key reads `key`, or the number
/// of entries when there is none.
pub open spec fn position_of(entries: Seq<(String, Vec<Field>)>, key: Seq<char>) -> int {
    first_match(entries, entry_keyed(key))
}

/// The test that an entry's key reads `key`.
pub open spec fn entry_keyed(key: Seq<char>) -> spec_fn((String, Vec<Field>)) -> bool {
    |e: (String, Vec<Field>)| e.0@ == key
}

/// `indexmap::IndexMap::new`: the new map has no entries.
#[verifier::external_body]
pub(crate) fn groups_new() -> (map: IndexMap<String, Vec<Field>>)
    ensures
        grouped(map) == Seq::<(String, Vec<Field>)>::empty(),
{
    IndexMap::new()
}

/// `indexmap::IndexMap::get`: the value stored under `key`, when the map has
/// an entry with that key, and `None` when it has none.
#[verifier::external_body]
pub(crate) fn groups_get<'a>(map: &'a IndexMap<String, Vec<Field>>, key: &String) -> (found:
    Option<&'a Vec<Field>>)
    ensures
        match found {
            Some(fields) => position_of(grouped(*map), key@) < grouped(*map).len() && *fields
                == grouped(*map)[position_of(grouped(*map), key@)].1,
            None => position_of(grouped(*map), key@) == grouped(*map).len(),
        },
{
    map.get(key)
}

/// `indexmap::IndexMap::insert`: where the map has an entry with that key,
/// the entry keeps its key and its place and takes the new value; where it
/// has none, the pair becomes the last entry. Every other entry is left as it
/// was. The value that was replaced is dropped.
#[verifier::external_body]
pub(crate) fn groups_insert(map: &mut IndexMap<String, Vec<Field>>, key: String, fields: Vec<Field>)
    ensures
        ({
            let before = grouped(*old(map));
            let at = position_of(before, key@);
            if at < before.len() {
                grouped(*final(map)) == before.update(at, (before[at].0, fields))
            } else {
                grouped(*final(map)) == before.push((key, fields))
            }
        }),
{
    map.insert(key, fields);
}

/// `indexmap::IndexMap::into_iter`, collected into a vector: the entries of
/// the map, in its order.
#[verifier::external_body]
pub(crate) fn groups_entries(map: IndexMap<String, Vec<Field>>) -> (entries: Vec<
    (String, Vec<Field>),
>)
    ensures
        entries@ == grouped(map),
{
    map.into_iter().collect()
}

/// The model of the entries of a map of field groups.
pub open spec fn groups_view(entries: Seq<(String, Vec<Field>)>) -> Seq<
    (Seq<char>, Seq<FieldModel>),
> {
    Seq::new(entries.len(), |i: int| (entries[i].0@, models(entries[i].1@)))
}

/// A key has the same position among the entries and among their models.
pub proof fn lemma_position_of_view(entries: Seq<(String, Vec<Field>)>, key: Seq<char>)
    ensures
        position_of(entries, key) == group_position(groups_view(entries), key),
        0 <= position_of(entries, key) <= entries.len(),
{
    lemma_first_match(entries, entry_keyed(key));
    lemma_first_match_mapped(entries, entry_keyed(key), groups_view(entries), group_keyed(key));
}

/// Copies a list of fields.
pub fn clone_fields(fields: &Vec<Field>) -> (copy: Vec<Field>)
    ensures
        models(copy@) == models(fields@),
{
    let mut out: Vec<Field> = Vec::new();
    let mut i: usize = 0;
    while i < fields.len()
        invariant
            i <= fields.len(),
            out.len() == i,
            forall|j: int| 0 <= j < i ==> out[j]@ == fields[j]@,
        decreases fields.len() - i,
    {
        out.push(fields[i].clone());
        i += 1;
    }
    assert(models(out@) =~= models(fields@));
    out
}

/// Adds `fields` under `key`: to the end of the group of that key, or as a new
/// last group when the map has none with that key.
pub fn add_to_group(map: &mut IndexMap<String, Vec<Field>>, key: String, fields: Vec<Field>)
    ensures
        groups_view(grouped(*final(map))) == append_group(
            groups_view(grouped(*old(map))),
            key@,
            models(fields@),
        ),
{
    let ghost before = grouped(*map);
    let ghost at = position_of(before, key@);
    proof {
        lemma_position_of_view(before, key@);
    }
    let mut group = match groups_get(map, &key) {
        Some(existing) => clone_fields(existing),
        None => Vec::new(),
    };
    let mut fields = fields;
    let ghost added = models(fields@);
    group.append(&mut fields);
    proof {
        if at < before.len() {
            assert(models(group@) =~= models(before[at].1@) + added);
        } else {
            assert(models(group@) =~= added);
        }
    }
    groups_insert(map, key, group);
    proof {
        let after = grouped(*map);
        let wanted = append_group(groups_view(before), key@, added);
        assert(groups_view(after).len() == wanted.len());
        assert forall|i: int| 0 <= i < wanted.len() implies groups_view(after)[i] == wanted[i] by {
            if at < before.len() {
                lemma_first_match(before, entry_keyed(key@));
                if i != at {
                    assert(after[i] == before[i]);
                }
            } else {
                if i < before.len() {
                    assert(after[i] == before[i]);
                }
            }
        }
        assert(groups_view(after) =~= wanted);
    }
}

} // verus!
