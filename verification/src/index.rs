//! The parent-to-children index that the descendant walk reads.

use vstd::prelude::*;

verus! {

/// An entity of the live graph, by the bits of its identifier.
pub type Entity = u64;

/// What a children index holds: each parent with its children in order.
pub type IndexEntries = Map<Entity, Seq<Entity>>;

/// The hash table behind a [`ChildrenIndex`]: `hashbrown`'s `HashMap`, as
/// `bevy::utils` hands it out. Verus sees nothing inside it; what it holds is
/// named by [`table_entries`].
#[verifier::external_body]
pub struct ParentTable {
    map: bevy::utils::hashbrown::HashMap<u64, Vec<u64>>,
}

/// The entries of a [`ParentTable`]: every key with the value stored under it.
pub uninterp spec fn table_entries(table: ParentTable) -> Map<u64, Seq<u64>>;

/// `HashMap::new` of `hashbrown`: a table without entries.
#[verifier::external_body]
fn table_new() -> (table: ParentTable)
    ensures
        table_entries(table) == IndexEntries::empty(),
{
    ParentTable { map: bevy::utils::hashbrown::HashMap::new() }
}

/// `HashMap::insert` of `hashbrown`, on a table taken and handed back: in
/// the result `parent` maps to `children`, whether or not it had an entry
/// before, and every other entry is as it was.
#[verifier::external_body]
fn table_insert(table: ParentTable, parent: u64, children: Vec<u64>) -> (out: ParentTable)
    ensures
        table_entries(out) == table_entries(table).insert(parent, children@),
{
    let mut table = table;
    table.map.insert(parent, children);
    table
}

/// `HashMap::get` of `hashbrown`: the value stored under `parent`, if the
/// table has an entry for it.
#[verifier::external_body]
fn table_get<'a>(table: &'a ParentTable, parent: u64) -> (found: Option<&'a Vec<u64>>)
    ensures
        found is Some <==> table_entries(*table).dom().contains(parent),
        found is Some ==> found->0@ == table_entries(*table)[parent],
{
    table.map.get(&parent)
}

/// The parents of the live graph, each with its children in order.
///
/// Entities without children have no entry.
pub struct ChildrenIndex {
    table: ParentTable,
}

impl View for ChildrenIndex {
    type V = Map<Entity, Seq<Entity>>;

    closed spec fn view(&self) -> Map<Entity, Seq<Entity>> {
        table_entries(self.table)
    }
}

impl ChildrenIndex {
    #[verifier::type_invariant]
    spec fn finitely_many_parents(self) -> bool {
        table_entries(self.table).dom().finite()
    }

    /// An index without parents.
    pub fn new() -> (index: Self)
        ensures
            index@ == IndexEntries::empty(),
    {
        ChildrenIndex { table: table_new() }
    }

    /// The index with `children` recorded as the children of `parent`, in
    /// place of any children recorded for it before.
    pub fn with_children(self, parent: Entity, children: Vec<Entity>) -> (index: Self)
        ensures
            index@ == self@.insert(parent, children@),
    {
        proof {
            use_type_invariant(&self);
        }
        let ChildrenIndex { table } = self;
        ChildrenIndex { table: table_insert(table, parent, children) }
    }

    /// The children recorded for `parent`, if it has any. An index holds
    /// finitely many parents.
    pub fn get(&self, parent: Entity) -> (children: Option<&Vec<Entity>>)
        ensures
            children is Some <==> self@.dom().contains(parent),
            children is Some ==> children->0@ == self@[parent],
            self@.dom().finite(),
    {
        proof {
            use_type_invariant(self);
        }
        table_get(&self.table, parent)
    }
}

} // verus!
