//! Local identifiers: the numbering that a scene gives to the entities it
//! holds and to those it only refers to.

use crate::index::Entity;
use std::collections::HashMap;
use vstd::prelude::*;

verus! {

broadcast use vstd::std_specs::hash::group_hash_axioms;

/// The first place of `entity` in `table`, or the table's length where the
/// table does not hold it.
pub open spec fn position(table: Seq<Entity>, entity: Entity) -> int
    decreases table.len(),
{
    if table.len() == 0 {
        0
    } else if table[0] == entity {
        0
    } else {
        1 + position(table.drop_first(), entity)
    }
}

/// `table` with `entity` in it: unchanged where it holds the entity already,
/// else with the entity at its end.
pub open spec fn assign(table: Seq<Entity>, entity: Entity) -> Seq<Entity> {
    if table.contains(entity) {
        table
    } else {
        table.push(entity)
    }
}

/// `table` after each of `entities` was assigned a place, in their order.
pub open spec fn assign_all(table: Seq<Entity>, entities: Seq<Entity>) -> Seq<Entity>
    decreases entities.len(),
{
    if entities.len() == 0 {
        table
    } else {
        assign(assign_all(table, entities.drop_last()), entities.last())
    }
}

/// The places of `entities` in `table`, one for one.
pub open spec fn positions(table: Seq<Entity>, entities: Seq<Entity>) -> Seq<u64> {
    Seq::new(entities.len(), |i: int| position(table, entities[i]) as u64)
}

/// A place is within the table exactly for the entities that the table holds,
/// and the table holds the entity at its place.
pub proof fn lemma_position(table: Seq<Entity>, entity: Entity)
    ensures
        0 <= position(table, entity) <= table.len(),
        position(table, entity) < table.len() <==> table.contains(entity),
        table.contains(entity) ==> table[position(table, entity)] == entity,
        forall|i: int| 0 <= i < position(table, entity) ==> table[i] != entity,
    decreases table.len(),
{
    if table.len() == 0 {
    } else if table[0] == entity {
    } else {
        let rest = table.drop_first();
        lemma_position(rest, entity);
        if rest.contains(entity) {
            let i = choose|i: int| 0 <= i < rest.len() && rest[i] == entity;
            assert(table[i + 1] == entity);
        }
        if table.contains(entity) {
            let i = choose|i: int| 0 <= i < table.len() && table[i] == entity;
            assert(rest[i - 1] == entity);
        }
        assert forall|i: int| 0 <= i < position(table, entity) implies table[i] != entity by {
            if i > 0 {
                assert(rest[i - 1] == table[i]);
            }
        }
    }
}

/// In a table without repeats, an entity found at a place has that place.
pub proof fn lemma_position_unique(table: Seq<Entity>, i: int)
    requires
        table.no_duplicates(),
        0 <= i < table.len(),
    ensures
        position(table, table[i]) == i,
{
    lemma_position(table, table[i]);
}

/// Two entities that a table holds have one place only where they are one
/// entity.
pub proof fn lemma_position_injective(table: Seq<Entity>, a: Entity, b: Entity)
    requires
        table.contains(a),
        table.contains(b),
    ensures
        position(table, a) == position(table, b) <==> a == b,
{
    lemma_position(table, a);
    lemma_position(table, b);
}

/// A table that grows at its end keeps the places of the entities it held.
pub proof fn lemma_position_in_prefix(table: Seq<Entity>, longer: Seq<Entity>, entity: Entity)
    requires
        table.is_prefix_of(longer),
        table.contains(entity),
    ensures
        position(longer, entity) == position(table, entity),
{
    lemma_position(table, entity);
    lemma_position(longer, entity);
    let p = position(table, entity);
    assert(longer[p] == entity);
    assert(longer.contains(entity));
    let q = position(longer, entity);
    if q < p {
        assert(table[q] == longer[q]);
    }
}

/// A table that grows at its end keeps the places of a run of entities that
/// it held.
pub proof fn lemma_positions_in_prefix(
    table: Seq<Entity>,
    longer: Seq<Entity>,
    entities: Seq<Entity>,
)
    requires
        table.is_prefix_of(longer),
        forall|i: int| 0 <= i < entities.len() ==> table.contains(#[trigger] entities[i]),
    ensures
        positions(longer, entities) == positions(table, entities),
{
    assert forall|i: int| 0 <= i < entities.len() implies position(longer, entities[i])
        == position(table, entities[i]) by {
        lemma_position_in_prefix(table, longer, entities[i]);
    }
    assert(positions(longer, entities) =~= positions(table, entities));
}

/// Assigning places keeps what the table held, where it held it, adds no
/// repeats, and gives each of the entities a place.
pub proof fn lemma_assign_all(table: Seq<Entity>, entities: Seq<Entity>)
    ensures
        table.is_prefix_of(assign_all(table, entities)),
        table.no_duplicates() ==> assign_all(table, entities).no_duplicates(),
        forall|i: int|
            0 <= i < entities.len() ==> #[trigger] assign_all(table, entities).contains(
                entities[i],
            ),
        forall|e: Entity|
            #[trigger] assign_all(table, entities).contains(e) <==> table.contains(e)
                || entities.contains(e),
    decreases entities.len(),
{
    let all = assign_all(table, entities);
    if entities.len() == 0 {
    } else {
        let front = entities.drop_last();
        let before = assign_all(table, front);
        lemma_assign_all(table, front);
        let last = entities.last();
        assert forall|e: Entity| #[trigger]
            all.contains(e) <==> table.contains(e) || entities.contains(e) by {
            if all.contains(e) {
                let k = choose|k: int| 0 <= k < all.len() && all[k] == e;
                if k < before.len() {
                    assert(before[k] == e);
                    assert(before.contains(e));
                    if !table.contains(e) {
                        assert(front.contains(e));
                        let j = choose|j: int| 0 <= j < front.len() && front[j] == e;
                        assert(entities[j] == e);
                    }
                } else {
                    assert(e == last);
                    assert(entities[entities.len() - 1] == e);
                }
            }
            if table.contains(e) {
                assert(before.contains(e));
                let k = choose|k: int| 0 <= k < before.len() && before[k] == e;
                assert(all[k] == e);
            }
            if entities.contains(e) {
                let j = choose|j: int| 0 <= j < entities.len() && entities[j] == e;
                if j < front.len() {
                    assert(front[j] == e);
                    assert(front.contains(e));
                    assert(before.contains(e));
                    let k = choose|k: int| 0 <= k < before.len() && before[k] == e;
                    assert(all[k] == e);
                } else if before.contains(last) {
                } else {
                    assert(all[before.len() as int] == last);
                }
            }
        }
        assert forall|i: int| 0 <= i < entities.len() implies #[trigger] all.contains(
            entities[i],
        ) by {
            assert(entities.contains(entities[i]));
        }
    }
}

/// Assigning places to one run of entities and then to another is assigning
/// them to the two runs joined.
pub proof fn lemma_assign_all_joined(table: Seq<Entity>, first: Seq<Entity>, second: Seq<Entity>)
    ensures
        assign_all(assign_all(table, first), second) == assign_all(table, first + second),
    decreases second.len(),
{
    if second.len() == 0 {
        assert(first + second == first);
    } else {
        lemma_assign_all_joined(table, first, second.drop_last());
        assert((first + second).drop_last() == first + second.drop_last());
        assert((first + second).last() == second.last());
    }
}

/// The numbering of a scene under construction: each entity that was given a
/// local identifier, at the place that is its identifier.
pub struct EntityMapper {
    table: Vec<Entity>,
    slots: HashMap<Entity, u64>,
}

impl View for EntityMapper {
    type V = Seq<Entity>;

    closed spec fn view(&self) -> Seq<Entity> {
        self.table@
    }
}

impl EntityMapper {
    /// The table holds no entity twice, and the lookup side agrees with it.
    pub closed spec fn wf(&self) -> bool {
        &&& self.table@.no_duplicates()
        &&& forall|e: Entity| #[trigger] self.slots@.contains_key(e) <==> self.table@.contains(e)
        &&& forall|i: int|
            0 <= i < self.table@.len() ==> #[trigger] self.slots@[self.table@[i]] == i
    }

    /// A numbering that has given out no identifier.
    pub fn new() -> (mapper: Self)
        ensures
            mapper.wf(),
            mapper@ == Seq::<Entity>::empty(),
    {
        EntityMapper { table: Vec::new(), slots: HashMap::new() }
    }

    /// A numbering holds no entity twice.
    pub proof fn lemma_no_duplicates(&self)
        requires
            self.wf(),
        ensures
            self@.no_duplicates(),
    {
    }

    /// The number of identifiers given out.
    pub fn len(&self) -> (count: usize)
        ensures
            count == self@.len(),
    {
        self.table.len()
    }

    /// The entity that was given the local identifier `local`.
    pub fn entity_at(&self, local: usize) -> (entity: Entity)
        requires
            local < self@.len(),
        ensures
            entity == self@[local as int],
    {
        self.table[local]
    }

    /// The local identifier of `entity`, if it was given one.
    pub fn get(&self, entity: Entity) -> (local: Option<u64>)
        requires
            self.wf(),
        ensures
            local is Some <==> self@.contains(entity),
            local is Some ==> local->0 == position(self@, entity),
    {
        match self.slots.get(&entity) {
            Some(slot) => {
                proof {
                    let i = choose|i: int| 0 <= i < self.table@.len() && self.table@[i] == entity;
                    lemma_position_unique(self.table@, i);
                }
                Some(*slot)
            },
            None => None,
        }
    }

    /// The local identifier of `entity`: the one it was given before, or else
    /// the next free one, which it is given now.
    pub fn map_entity(&mut self, entity: Entity) -> (local: u64)
        requires
            old(self).wf(),
        ensures
            final(self).wf(),
            final(self)@ == assign(old(self)@, entity),
            local == position(final(self)@, entity),
    {
        match self.get(entity) {
            Some(local) => local,
            None => {
                let local = self.table.len() as u64;
                proof {
                    lemma_position(self.table@, entity);
                    lemma_position(self.table@.push(entity), entity);
                }
                self.table.push(entity);
                self.slots.insert(entity, local);
                proof {
                    let before = old(self).table@;
                    assert(self.table@.contains(entity)) by {
                        assert(self.table@[before.len() as int] == entity);
                    }
                    assert forall|e: Entity| #[trigger]
                        self.slots@.contains_key(e) <==> self.table@.contains(e) by {
                        if before.contains(e) {
                            let k = choose|k: int| 0 <= k < before.len() && before[k] == e;
                            assert(self.table@[k] == e);
                        }
                        if self.table@.contains(e) && e != entity {
                            let k = choose|k: int| 0 <= k < self.table@.len() && self.table@[k] == e;
                            assert(before[k] == e);
                        }
                    }
                    assert forall|i: int| 0 <= i < self.table@.len() implies #[trigger]
                        self.slots@[self.table@[i]] == i by {
                        if i < before.len() {
                            assert(before[i] == self.table@[i]);
                            assert(before.contains(before[i]));
                        }
                    }
                    assert forall|i: int, j: int|
                        0 <= i < self.table@.len() && 0 <= j < self.table@.len() && i != j implies self.table@[i]
                        != self.table@[j] by {
                        if i < before.len() {
                            assert(before.contains(before[i]));
                        }
                        if j < before.len() {
                            assert(before.contains(before[j]));
                        }
                    }
                }
                local
            },
        }
    }

    /// The local identifiers of `entities`, one for one, each entity without
    /// one being given the next free one as its turn comes.
    pub fn map_entities(&mut self, entities: &Vec<Entity>) -> (locals: Vec<u64>)
        requires
            old(self).wf(),
        ensures
            final(self).wf(),
            final(self)@ == assign_all(old(self)@, entities@),
            locals@ == positions(final(self)@, entities@),
    {
        let mut locals: Vec<u64> = Vec::new();
        let mut i: usize = 0;
        while i < entities.len()
            invariant
                i <= entities.len(),
                self.wf(),
                self@ == assign_all(old(self)@, entities@.take(i as int)),
                locals@ == positions(self@, entities@.take(i as int)),
            decreases entities.len() - i,
        {
            let ghost before = self@;
            let local = self.map_entity(entities[i]);
            locals.push(local);
            i += 1;
            proof {
                let done = entities@.take(i as int);
                assert(done.drop_last() == entities@.take(i - 1));
                assert(done.last() == entities@[i - 1]);
                lemma_assign_all(old(self)@, entities@.take(i - 1));
                assert(before.is_prefix_of(self@));
                assert forall|k: int| 0 <= k < i implies locals@[k] == position(
                    self@,
                    done[k],
                ) as u64 by {
                    if k < i - 1 {
                        assert(entities@.take(i - 1)[k] == done[k]);
                        assert(before.contains(done[k]));
                        lemma_position_in_prefix(before, self@, done[k]);
                    }
                }
                assert(locals@ =~= positions(self@, done));
            }
        }
        assert(entities@.take(entities.len() as int) == entities@);
        locals
    }
}

} // verus!
