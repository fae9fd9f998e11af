//! The table of registered actions: the actions an agent can take, each
//! under the key by which plans name it.

use vstd::prelude::*;
use bevy_platform::collections::HashMap;
use bevy_platform::hash::FixedHasher;
use crate::action::{Action, ActionView};

verus! {

/// `bevy_platform::collections::HashMap`, a hash map. What a table of
/// actions holds is named by [`registered_actions`].
#[verifier::external_type_specification]
#[verifier::external_body]
#[verifier::reject_recursive_types(K)]
#[verifier::reject_recursive_types(V)]
#[verifier::reject_recursive_types(S)]
pub struct ExHashMap<K, V, S>(bevy_platform::collections::HashMap<K, V, S>);

/// `bevy_platform::hash::FixedHasher`, the hasher of the table. It is
/// carried through and never looked into.
#[verifier::external_type_specification]
#[verifier::external_body]
pub struct ExFixedHasher(bevy_platform::hash::FixedHasher);

/// What a table of actions holds: for each key, the model of the action
/// registered under it.
pub uninterp spec fn registered_actions(
    table: HashMap<String, Action, FixedHasher>,
) -> Map<Seq<char>, ActionView>;

/// Whether `listed` holds the action of each entry of `table` once, in some
/// order: `keys` gives, for each position, the key of its entry.
pub open spec fn lists_by(
    listed: Seq<ActionView>,
    table: Map<Seq<char>, ActionView>,
    keys: Seq<Seq<char>>,
) -> bool {
    &&& keys.len() == listed.len()
    &&& forall|i: int, j: int| 0 <= i < j < keys.len() ==> keys[i] != keys[j]
    &&& forall|i: int|
        0 <= i < keys.len() ==> table.contains_key(#[trigger] keys[i]) && table[keys[i]]
            == listed[i]
    &&& forall|k: Seq<char>| #[trigger]
        table.contains_key(k) ==> exists|i: int| 0 <= i < keys.len() && #[trigger] keys[i] == k
}

/// Whether `listed` holds the action of each entry of `table` once, in some
/// order.
pub open spec fn lists(listed: Seq<ActionView>, table: Map<Seq<char>, ActionView>) -> bool {
    exists|keys: Seq<Seq<char>>| #[trigger] lists_by(listed, table, keys)
}

/// The models of the actions that a list refers to, in order.
pub open spec fn listed_views(listed: Seq<&Action>) -> Seq<ActionView> {
    Seq::new(listed.len(), |i: int| listed[i]@)
}

/// The action registered under `key`, if there is one.
///
/// Calls `HashMap::get`, which returns a reference to the value of the
/// entry whose key equals `key`, and nothing if the map has no such entry.
#[verifier::external_body]
pub(crate) fn registered_action<'a>(
    table: &'a HashMap<String, Action, FixedHasher>,
    key: &String,
) -> (found: Option<&'a Action>)
    ensures
        match found {
            Some(action) => registered_actions(*table).contains_key(key@) && registered_actions(
                *table,
            )[key@] == action@,
            None => !registered_actions(*table).contains_key(key@),
        },
{
    table.get(key)
}

/// The registered actions, in the order in which the table hands them out.
///
/// Calls `HashMap::values`, which visits the value of every entry once, in
/// an order that is not specified, and collects the references it yields.
#[verifier::external_body]
pub(crate) fn listed_actions<'a>(table: &'a HashMap<String, Action, FixedHasher>) -> (listed: Vec<
    &'a Action,
>)
    ensures
        lists(listed_views(listed@), registered_actions(*table)),
{
    table.values().collect()
}

} // verus!
