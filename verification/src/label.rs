//! The label table: the address that each label stands for.

use vstd::hash_map::StringHashMap;
use vstd::prelude::*;

verus! {

/// The address of the instruction that follows each declared label.
pub struct LabelTable {
    addrs: StringHashMap<u16>,
}

impl View for LabelTable {
    type V = Map<Seq<char>, u16>;

    closed spec fn view(&self) -> Map<Seq<char>, u16> {
        self.addrs@
    }
}

impl LabelTable {
    /// A table without labels.
    pub fn new() -> (table: LabelTable)
        ensures
            table@ == Map::<Seq<char>, u16>::empty(),
    {
        LabelTable { addrs: StringHashMap::new() }
    }

    /// Gives `name` the address `addr`, in place of any earlier one.
    pub fn insert(&mut self, name: String, addr: u16)
        ensures
            final(self)@ == old(self)@.insert(name@, addr),
    {
        self.addrs.insert(name, addr);
    }

    /// The address of `name`, if it was declared.
    pub fn get(&self, name: &str) -> (addr: Option<u16>)
        ensures
            addr == (if self@.contains_key(name@) {
                Some(self@[name@])
            } else {
                None
            }),
    {
        match self.addrs.get(name) {
            Some(addr) => Some(*addr),
            None => None,
        }
    }

    /// The address of a declared label.
    pub fn addr(&self, name: &str) -> (addr: u16)
        requires
            self@.contains_key(name@),
        ensures
            addr == self@[name@],
    {
        match self.addrs.get(name) {
            Some(addr) => *addr,
            None => unreached(),
        }
    }
}

} // verus!
