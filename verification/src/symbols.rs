//! The assembler's symbol table: a mapping from symbol names to machine
//! addresses.
//!
//! Insertion overwrites an existing binding, so the table behaves as a
//! finite map built up by successive inserts; its abstract value is a
//! `Map` from character sequences to addresses.

use vstd::prelude::*;
use vstd::string::*;
use crate::text::str_eq;

verus! {

/// A mapping from symbol names to 16-bit addresses.
pub struct SymbolTable {
    entries: Vec<(String, u16)>,
}

/// The map an entry list denotes: later entries overwrite earlier ones.
pub open spec fn map_of(entries: Seq<(String, u16)>) -> Map<Seq<char>, u16>
    decreases entries.len(),
{
    if entries.len() == 0 {
        Map::empty()
    } else {
        map_of(entries.drop_last()).insert(entries.last().0@, entries.last().1)
    }
}

impl View for SymbolTable {
    type V = Map<Seq<char>, u16>;

    closed spec fn view(&self) -> Map<Seq<char>, u16> {
        map_of(self.entries@)
    }
}

impl SymbolTable {
    /// An empty table.
    pub fn new() -> (t: SymbolTable)
        ensures
            t@ == Map::<Seq<char>, u16>::empty(),
    {
        let t = SymbolTable { entries: Vec::new() };
        proof {
            assert(t.entries@ =~= Seq::<(String, u16)>::empty());
        }
        t
    }

    /// Binds `name` to `value`, replacing any earlier binding.
    pub fn insert(&mut self, name: &str, value: u16)
        ensures
            final(self)@ == old(self)@.insert(name@, value),
    {
        let ghost before = self.entries@;
        self.entries.push((String::from_str(name), value));
        proof {
            assert(self.entries@.drop_last() =~= before);
            assert(self.entries@.last().0@ == name@);
        }
    }

    /// The address bound to `name`, when one is.
    pub fn get(&self, name: &str) -> (r: Option<u16>)
        ensures
            r == (if self@.contains_key(name@) {
                Some(self@[name@])
            } else {
                None::<u16>
            }),
    {
        let ghost whole = self.entries@;
        let mut j = self.entries.len();
        proof {
            assert(whole.take(j as int) =~= whole);
        }
        while j > 0
            invariant
                0 <= j <= whole.len(),
                whole == self.entries@,
                map_of(whole).contains_key(name@) == map_of(whole.take(j as int)).contains_key(
                    name@,
                ),
                map_of(whole).contains_key(name@) ==> map_of(whole.take(j as int))[name@] == map_of(
                    whole,
                )[name@],
            decreases j,
        {
            proof {
                assert(whole.take(j as int).drop_last() =~= whole.take(j - 1));
                assert(whole.take(j as int).last() == whole[j - 1]);
            }
            let pair = &self.entries[j - 1];
            if str_eq(pair.0.as_str(), name) {
                return Some(pair.1);
            }
            j = j - 1;
        }
        proof {
            assert(whole.take(0) =~= Seq::<(String, u16)>::empty());
        }
        None
    }

    /// Whether `name` is bound.
    pub fn contains(&self, name: &str) -> (r: bool)
        ensures
            r == self@.contains_key(name@),
    {
        match self.get(name) {
            Some(_) => true,
            None => false,
        }
    }
}

} // verus!
