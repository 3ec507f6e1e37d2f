//! The list of the emulators found.

use crate::emulator_listings::structs::emulator_meta::EmulatorMeta;
use crate::emulator_listings::structs::emulator_meta::EmulatorMetaView;
use vstd::prelude::*;

verus! {

/// The emulators found, in the order in which they were added.
#[derive(Debug)]
pub struct EmulatorList {
    pub emulators: Vec<EmulatorMeta>,
}

impl View for EmulatorList {
    type V = Seq<EmulatorMetaView>;

    open spec fn view(&self) -> Seq<EmulatorMetaView> {
        self.emulators@.map_values(|e: EmulatorMeta| e@)
    }
}

/// A list without emulators.
pub fn new() -> (list: EmulatorList)
    ensures
        list@ == Seq::<EmulatorMetaView>::empty(),
{
    let list = EmulatorList { emulators: Vec::new() };
    list
}

impl EmulatorList {
    /// Appends an emulator.
    pub fn add(&mut self, emulator: EmulatorMeta)
        ensures
            final(self)@ == old(self)@.push(emulator@),
    {
        self.emulators.push(emulator);
    }

    /// Takes the emulator at `index` out; those behind it move up.
    pub fn remove(&mut self, index: usize)
        requires
            index < old(self).emulators.len(),
        ensures
            final(self)@ == old(self)@.remove(index as int),
    {
        self.emulators.remove(index);
    }

    /// The emulator at `index`.
    pub fn get(&self, index: usize) -> (emulator: &EmulatorMeta)
        requires
            index < self.emulators.len(),
        ensures
            emulator@ == self@[index as int],
    {
        &self.emulators[index]
    }
}

} // verus!
