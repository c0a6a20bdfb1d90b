//! The tagged tree that schematic documents are made of.
//!
//! A [`Tag`] spells out the kinds of NBT value that the schematic formats
//! read. A value of any other kind is carried through untouched.

use crate::assoc::{distinct_keys, has_key, lookup, position, position_from, with_entry};
use crate::assoc::{lemma_lookup_without_key, lemma_with_entry_distinct, without_key};
use vstd::prelude::*;

verus! {

/// `nbt::Value`, a value of the `nbt` crate. It is carried through as it
/// is: nothing is known of what it holds.
#[verifier::external_type_specification]
#[verifier::external_body]
pub struct ExNbtValue(nbt::Value);

/// `clone` of `nbt::Value`, which the `nbt` crate derives. Assumed, not
/// proved: the copy is the value it was made from.
pub assume_specification[ <nbt::Value as Clone>::clone ](value: &nbt::Value) -> (copy: nbt::Value)
    ensures
        copy == *value,
;

/// One value of a document.
#[derive(Debug, PartialEq)]
pub enum Tag {
    Short(i16),
    Int(i32),
    ByteArray(Vec<i8>),
    String(String),
    List(Vec<Tag>),
    Compound(Compound),
    IntArray(Vec<i32>),
    /// A value of a kind that no schematic format reads: a byte, a long, a
    /// float, a double or a long array.
    Other(nbt::Value),
}

/// A named value inside a [`Compound`].
#[derive(Debug, PartialEq)]
pub struct Entry {
    pub name: String,
    pub value: Tag,
}

/// Named values in document order. A lookup sees the first entry of a name,
/// and storing a value under a name that is there replaces the value in
/// place: a compound that is only changed by `insert` and `remove` never has
/// a name twice.
#[derive(Debug, PartialEq)]
pub struct Compound {
    pub entries: Vec<Entry>,
}

/// The mathematical content of a [`Tag`].
pub enum TagView {
    Short(i16),
    Int(i32),
    ByteArray(Seq<i8>),
    String(Seq<char>),
    List(Seq<TagView>),
    Compound(Seq<(Seq<char>, TagView)>),
    IntArray(Seq<i32>),
    Other(nbt::Value),
}

/// The mathematical content of a [`Compound`]: names and values in order.
pub type Fields = Seq<(Seq<char>, TagView)>;

/// The contents of a list of tags, item by item.
pub open spec fn items_view(items: Seq<Tag>) -> Seq<TagView>
    decreases items,
{
    Seq::new(
        items.len(),
        |i: int|
            if 0 <= i < items.len() {
                items[i].view()
            } else {
                TagView::Int(0)
            },
    )
}

/// The contents of a list of entries, entry by entry.
pub open spec fn entries_view(entries: Seq<Entry>) -> Fields
    decreases entries,
{
    Seq::new(
        entries.len(),
        |i: int|
            if 0 <= i < entries.len() {
                (entries[i].name@, entries[i].value.view())
            } else {
                (Seq::empty(), TagView::Int(0))
            },
    )
}

impl View for Tag {
    type V = TagView;

    open spec fn view(&self) -> TagView
        decreases self,
    {
        match self {
            Tag::Short(v) => TagView::Short(*v),
            Tag::Int(v) => TagView::Int(*v),
            Tag::ByteArray(v) => TagView::ByteArray(v@),
            Tag::String(v) => TagView::String(v@),
            Tag::List(v) => TagView::List(items_view(v@)),
            Tag::Compound(v) => TagView::Compound(entries_view(v.entries@)),
            Tag::IntArray(v) => TagView::IntArray(v@),
            Tag::Other(v) => TagView::Other(*v),
        }
    }
}

impl View for Compound {
    type V = Fields;

    open spec fn view(&self) -> Fields {
        entries_view(self.entries@)
    }
}

impl Clone for Tag {
    /// A deep copy.
    fn clone(&self) -> (copy: Tag)
        ensures
            copy@ == self@,
        decreases self,
    {
        match self {
            Tag::Short(v) => Tag::Short(*v),
            Tag::Int(v) => Tag::Int(*v),
            Tag::ByteArray(v) => Tag::ByteArray(v.clone()),
            Tag::String(v) => Tag::String(v.clone()),
            Tag::List(items) => {
                let mut copies: Vec<Tag> = Vec::new();
                let mut i: usize = 0;
                while i < items.len()
                    invariant
                        decreases_to!(self => items),
                        i <= items.len(),
                        copies.len() == i,
                        forall|j: int| 0 <= j < i ==> copies[j]@ == items[j]@,
                    decreases items.len() - i,
                {
                    assert(decreases_to!(*items => items[i as int]));
                    copies.push(items[i].clone());
                    i += 1;
                }
                assert(items_view(copies@) =~= items_view(items@));
                Tag::List(copies)
            },
            Tag::Compound(compound) => {
                let mut copies: Vec<Entry> = Vec::new();
                let mut i: usize = 0;
                while i < compound.entries.len()
                    invariant
                        decreases_to!(self => compound.entries),
                        i <= compound.entries.len(),
                        copies.len() == i,
                        forall|j: int|
                            0 <= j < i ==> copies[j].name@ == compound.entries[j].name@
                                && copies[j].value@ == compound.entries[j].value@,
                    decreases compound.entries.len() - i,
                {
                    let entry = &compound.entries[i];
                    assert(decreases_to!(compound.entries => compound.entries[i as int]));
                    copies.push(Entry { name: entry.name.clone(), value: entry.value.clone() });
                    i += 1;
                }
                assert(entries_view(copies@) =~= entries_view(compound.entries@));
                Tag::Compound(Compound { entries: copies })
            },
            Tag::IntArray(v) => Tag::IntArray(v.clone()),
            Tag::Other(v) => Tag::Other(v.clone()),
        }
    }
}

impl Clone for Compound {
    /// A deep copy.
    fn clone(&self) -> (copy: Compound)
        ensures
            copy@ == self@,
    {
        let mut copies: Vec<Entry> = Vec::new();
        let mut i: usize = 0;
        while i < self.entries.len()
            invariant
                i <= self.entries.len(),
                copies.len() == i,
                forall|j: int|
                    0 <= j < i ==> copies[j].name@ == self.entries[j].name@ && copies[j].value@
                        == self.entries[j].value@,
            decreases self.entries.len() - i,
        {
            let entry = &self.entries[i];
            copies.push(Entry { name: entry.name.clone(), value: entry.value.clone() });
            i += 1;
        }
        assert(entries_view(copies@) =~= entries_view(self.entries@));
        Compound { entries: copies }
    }
}

impl Compound {
    /// A compound without entries.
    pub fn new() -> (compound: Compound)
        ensures
            compound@ == Seq::<(Seq<char>, TagView)>::empty(),
    {
        let compound = Compound { entries: Vec::new() };
        assert(compound@ =~= Seq::<(Seq<char>, TagView)>::empty());
        compound
    }

    /// The number of entries.
    pub fn len(&self) -> (len: usize)
        ensures
            len == self@.len(),
    {
        self.entries.len()
    }

    /// Whether there is no entry.
    pub fn is_empty(&self) -> (empty: bool)
        ensures
            empty == (self@.len() == 0),
    {
        self.entries.len() == 0
    }

    /// The index of the first entry with the name, or `len()`.
    fn find(&self, name: &str) -> (at: usize)
        ensures
            at == position(self@, name@),
            at <= self.entries.len(),
    {
        let key = name.to_owned();
        let mut i: usize = 0;
        while i < self.entries.len()
            invariant
                i <= self.entries.len(),
                key@ == name@,
                position(self@, name@) == position_from(self@, name@, i as int),
            decreases self.entries.len() - i,
        {
            if self.entries[i].name == key {
                return i;
            }
            i += 1;
        }
        i
    }

    /// Whether an entry has the name.
    pub fn contains_key(&self, name: &str) -> (found: bool)
        ensures
            found == has_key(self@, name@),
    {
        self.find(name) < self.entries.len()
    }

    /// The value stored under the name.
    pub fn get(&self, name: &str) -> (value: Option<&Tag>)
        ensures
            match value {
                Some(tag) => lookup(self@, name@) == Some(tag@),
                None => lookup(self@, name@) is None,
            },
    {
        let at = self.find(name);
        if at < self.entries.len() {
            Some(&self.entries[at].value)
        } else {
            None
        }
    }

    /// Stores the value under the name, in the place of the value that the
    /// name had or as the last entry.
    pub fn insert(&mut self, name: String, value: Tag)
        ensures
            final(self)@ == with_entry(old(self)@, name@, value@),
            distinct_keys(old(self)@) ==> distinct_keys(final(self)@),
    {
        proof {
            if distinct_keys(self@) {
                lemma_with_entry_distinct(self@, name@, value@);
            }
        }
        let at = self.find(name.as_str());
        if at < self.entries.len() {
            self.entries[at] = Entry { name, value };
        } else {
            self.entries.push(Entry { name, value });
        }
        assert(self@ =~= with_entry(old(self)@, name@, value@));
    }

    /// Removes the entry of the name, if there is one.
    pub fn remove(&mut self, name: &str)
        ensures
            final(self)@ == without_key(old(self)@, name@),
            distinct_keys(old(self)@) ==> distinct_keys(final(self)@) && !has_key(
                final(self)@,
                name@,
            ),
    {
        proof {
            lemma_lookup_without_key(self@, name@, name@);
        }
        let at = self.find(name);
        if at < self.entries.len() {
            self.entries.remove(at);
        }
        assert(self@ =~= without_key(old(self)@, name@));
    }
}

} // verus!
