//! Block entities: blocks with extra data attached to them (containers,
//! signs and the like), kept by their position in the schematic.

use crate::assoc::{distinct_keys, has_key, lemma_with_entry_distinct, lookup, position};
use crate::assoc::{position_from, with_entry};
use crate::tag::{Compound, Fields};
use vstd::prelude::*;

verus! {

/// The extra data of one block.
#[derive(Debug, PartialEq)]
pub struct BlockEntity {
    /// The type of the block entity.
    pub id: String,
    /// Every other field of it. Neither its position nor its id is among
    /// them.
    pub data: Compound,
}

/// The mathematical content of a [`BlockEntity`].
pub struct BlockEntityView {
    pub id: Seq<char>,
    pub data: Fields,
}

impl View for BlockEntity {
    type V = BlockEntityView;

    open spec fn view(&self) -> BlockEntityView {
        BlockEntityView { id: self.id@, data: self.data@ }
    }
}

impl Clone for BlockEntity {
    /// A deep copy.
    fn clone(&self) -> (copy: BlockEntity)
        ensures
            copy@ == self@,
    {
        BlockEntity { id: self.id.clone(), data: self.data.clone() }
    }
}

/// A block entity and the position of its block.
#[derive(Debug, PartialEq)]
pub struct PlacedEntity {
    pub pos: (u32, u32, u32),
    pub entity: BlockEntity,
}

/// The block entities of a schematic, by position. A lookup sees the first
/// entry of a position, and storing a block entity at a position that has
/// one replaces it in place: block entities that are only changed by
/// `insert` never have a position twice.
#[derive(Debug, PartialEq)]
pub struct BlockEntities {
    pub entries: Vec<PlacedEntity>,
}

/// The mathematical content of a [`BlockEntities`]: positions and block
/// entities in order.
pub type Placements = Seq<((u32, u32, u32), BlockEntityView)>;

/// The contents of a list of placed entities, entry by entry.
pub open spec fn placements_view(entries: Seq<PlacedEntity>) -> Placements {
    Seq::new(entries.len(), |i: int| (entries[i].pos, entries[i].entity@))
}

impl View for BlockEntities {
    type V = Placements;

    open spec fn view(&self) -> Placements {
        placements_view(self.entries@)
    }
}

impl BlockEntities {
    /// No block entities.
    pub fn new() -> (entities: BlockEntities)
        ensures
            entities@ == Seq::<((u32, u32, u32), BlockEntityView)>::empty(),
    {
        let entities = BlockEntities { entries: Vec::new() };
        assert(entities@ =~= Seq::<((u32, u32, u32), BlockEntityView)>::empty());
        entities
    }

    /// The number of block entities.
    pub fn len(&self) -> (len: usize)
        ensures
            len == self@.len(),
    {
        self.entries.len()
    }

    /// Whether there is no block entity.
    pub fn is_empty(&self) -> (empty: bool)
        ensures
            empty == (self@.len() == 0),
    {
        self.entries.len() == 0
    }

    /// The index of the first entry at the position, or `len()`.
    fn find(&self, pos: (u32, u32, u32)) -> (at: usize)
        ensures
            at == position(self@, pos),
            at <= self.entries.len(),
    {
        let mut i: usize = 0;
        while i < self.entries.len()
            invariant
                i <= self.entries.len(),
                position(self@, pos) == position_from(self@, pos, i as int),
            decreases self.entries.len() - i,
        {
            let here = self.entries[i].pos;
            if here.0 == pos.0 && here.1 == pos.1 && here.2 == pos.2 {
                return i;
            }
            i += 1;
        }
        i
    }

    /// Whether a block entity is stored at the position.
    pub fn contains_key(&self, pos: (u32, u32, u32)) -> (found: bool)
        ensures
            found == has_key(self@, pos),
    {
        self.find(pos) < self.entries.len()
    }

    /// The block entity at the position.
    pub fn get(&self, pos: (u32, u32, u32)) -> (entity: Option<&BlockEntity>)
        ensures
            match entity {
                Some(entity) => lookup(self@, pos) == Some(entity@),
                None => lookup(self@, pos) is None,
            },
    {
        let at = self.find(pos);
        if at < self.entries.len() {
            Some(&self.entries[at].entity)
        } else {
            None
        }
    }

    /// Stores the block entity at the position, in the place of the one that
    /// the position had or as the last entry.
    pub fn insert(&mut self, pos: (u32, u32, u32), entity: BlockEntity)
        ensures
            final(self)@ == with_entry(old(self)@, pos, entity@),
            distinct_keys(old(self)@) ==> distinct_keys(final(self)@),
    {
        proof {
            if distinct_keys(self@) {
                lemma_with_entry_distinct(self@, pos, entity@);
            }
        }
        let at = self.find(pos);
        if at < self.entries.len() {
            self.entries[at] = PlacedEntity { pos, entity };
        } else {
            self.entries.push(PlacedEntity { pos, entity });
        }
        assert(self@ =~= with_entry(old(self)@, pos, entity@));
    }
}

} // verus!
