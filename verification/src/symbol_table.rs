//! Symbol table: maps binding names to stable small integer slots.
//!
//! Slots are assigned monotonically starting at 0 and are never reused:
//! redefining a name allocates a fresh slot and the old slot keeps existing as
//! a distinct global storage location that is no longer reachable by name.

use vstd::prelude::*;

verus! {

/// Maps binding names to global storage slots for one compilation.
pub struct SymbolTable {
    store: Vec<(String, u16)>,
    next_index: u32,
}

/// The name-to-slot map an entry list holds; later entries win.
spec fn assoc_slots(entries: Seq<(String, u16)>) -> Map<Seq<char>, u16>
    decreases entries.len(),
{
    if entries.len() == 0 {
        Map::empty()
    } else {
        assoc_slots(entries.drop_last()).insert(entries.last().0@, entries.last().1)
    }
}

impl View for SymbolTable {
    type V = Map<Seq<char>, u16>;

    closed spec fn view(&self) -> Map<Seq<char>, u16> {
        assoc_slots(self.store@)
    }
}

fn resolve_in(entries: &Vec<(String, u16)>, n: usize, name: &String) -> (r: Option<u16>)
    requires
        n <= entries@.len(),
    ensures
        (match r {
            Some(slot) => assoc_slots(entries@.subrange(0, n as int)).contains_key(name@)
                && assoc_slots(entries@.subrange(0, n as int))[name@] == slot,
            None => !assoc_slots(entries@.subrange(0, n as int)).contains_key(name@),
        }),
    decreases n,
{
    if n == 0 {
        proof {
            assert(entries@.subrange(0, 0).len() == 0);
        }
        None
    } else {
        proof {
            assert(entries@.subrange(0, n as int).drop_last() =~= entries@.subrange(
                0,
                n as int - 1,
            ));
            assert(entries@.subrange(0, n as int).last() == entries@[n as int - 1]);
        }
        let entry = &entries[n - 1];
        if entry.0 == *name {
            Some(entry.1)
        } else {
            resolve_in(entries, n - 1, name)
        }
    }
}

impl SymbolTable {
    /// The slot the next definition will receive; all 65536 16-bit slots can
    /// be handed out, after which the table is full.
    pub closed spec fn next_slot(&self) -> int {
        self.next_index as int
    }

    /// An empty table; the first definition receives slot 0.
    pub fn new() -> (r: Self)
        ensures
            r@ == Map::<Seq<char>, u16>::empty(),
            r.next_slot() == 0,
    {
        let r = SymbolTable { store: Vec::new(), next_index: 0 };
        proof {
            assert(r@ =~= Map::<Seq<char>, u16>::empty());
        }
        r
    }

    /// Allocate the next sequential slot for `name`, recording the binding
    /// (and shadowing any earlier slot held under that name).
    pub fn define(&mut self, name: String) -> (slot: u16)
        requires
            old(self).next_slot() < 65536,
        ensures
            slot as int == old(self).next_slot(),
            final(self)@ == old(self)@.insert(name@, slot),
            final(self).next_slot() == old(self).next_slot() + 1,
    {
        let index = self.next_index as u16;
        let ghost before = self.store@;
        self.store.push((name, index));
        self.next_index = self.next_index + 1;
        proof {
            assert(self.store@.drop_last() =~= before);
        }
        index
    }

    /// The slot the next definition will receive, as a value.
    pub fn next_index(&self) -> (r: u32)
        ensures
            r as int == self.next_slot(),
    {
        self.next_index
    }

    /// The slot currently bound to `name`, if any.
    pub fn resolve(&self, name: &str) -> (r: Option<u16>)
        ensures
            (match r {
                Some(slot) => self@.contains_key(name@) && self@[name@] == slot,
                None => !self@.contains_key(name@),
            }),
    {
        let owned = name.to_owned();
        let n = self.store.len();
        proof {
            assert(self.store@.subrange(0, n as int) =~= self.store@);
        }
        resolve_in(&self.store, n, &owned)
    }
}

} // verus!
