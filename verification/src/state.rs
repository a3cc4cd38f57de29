//! The addresses that a user has stored.

use crate::models::GpsCoordinate;
use crate::text::same_text;
use vstd::prelude::*;

verus! {

/// An address that a user has stored.
#[derive(Debug, Clone)]
pub struct StoredAddress {
    /// The address as text, by which it is found again.
    pub address: String,
    /// Position of the address.
    pub coordinate: GpsCoordinate,
    /// Whether the user wants to hear about its cleanings.
    pub active: bool,
}

/// The stored addresses, none of them twice, in the order in which they
/// were first stored.
pub struct AppState {
    stored_addresses: Vec<StoredAddress>,
}

/// The entry at position `at` is the one for `address`.
pub open spec fn is_entry_for(entries: Seq<StoredAddress>, address: Seq<char>, at: int) -> bool {
    0 <= at < entries.len() && entries[at].address@ == address
}

/// No entry is for `address`.
pub open spec fn has_no_entry(entries: Seq<StoredAddress>, address: Seq<char>) -> bool {
    forall|i: int| 0 <= i < entries.len() ==> (#[trigger] entries[i]).address@ != address
}

/// No two entries are for the same address.
pub open spec fn all_distinct(entries: Seq<StoredAddress>) -> bool {
    forall|i: int, j: int|
        0 <= i < j < entries.len() ==> (#[trigger] entries[i]).address@
            != (#[trigger] entries[j]).address@
}

/// The number of entries of which the user wants to hear.
pub open spec fn active_entries(entries: Seq<StoredAddress>) -> nat
    decreases entries.len(),
{
    if entries.len() == 0 {
        0
    } else {
        active_entries(entries.drop_last()) + if entries.last().active {
            1nat
        } else {
            0nat
        }
    }
}

impl AppState {
    /// The entries in the order in which their addresses were first stored.
    pub closed spec fn entries(&self) -> Seq<StoredAddress> {
        self.stored_addresses@
    }

    /// No address is stored twice.
    pub open spec fn well_formed(&self) -> bool {
        all_distinct(self.entries())
    }

    /// A store without addresses.
    pub fn new() -> (state: Self)
        ensures
            state.entries().len() == 0,
            state.well_formed(),
    {
        Self { stored_addresses: Vec::new() }
    }

    /// The position of the entry for `address`, if there is one.
    fn position_of(&self, address: &str) -> (found: Option<usize>)
        ensures
            match found {
                Some(at) => is_entry_for(self.entries(), address@, at as int),
                None => has_no_entry(self.entries(), address@),
            },
    {
        let mut i: usize = 0;
        while i < self.stored_addresses.len()
            invariant
                i <= self.stored_addresses@.len(),
                forall|k: int|
                    0 <= k < i ==> (#[trigger] self.stored_addresses@[k]).address@ != address@,
            decreases self.stored_addresses.len() - i,
        {
            if same_text(self.stored_addresses[i].address.as_str(), address) {
                return Some(i);
            }
            i = i + 1;
        }
        None
    }

    /// Stores an address. An entry for the same address is replaced.
    pub fn add_address(&mut self, address: StoredAddress)
        requires
            old(self).well_formed(),
        ensures
            final(self).well_formed(),
            has_no_entry(old(self).entries(), address.address@) ==> final(self).entries() == old(
                self,
            ).entries().push(address),
            forall|at: int|
                is_entry_for(old(self).entries(), address.address@, at) ==> final(self).entries()
                    == old(self).entries().update(at, address),
    {
        match self.position_of(address.address.as_str()) {
            Some(at) => {
                self.stored_addresses.set(at, address);
            },
            None => {
                self.stored_addresses.push(address);
            },
        }
    }

    /// The stored addresses.
    pub fn get_addresses(&self) -> (copies: Vec<StoredAddress>)
        ensures
            copies@.len() == self.entries().len(),
            forall|i: int|
                0 <= i < copies@.len() ==> {
                    &&& (#[trigger] copies@[i]).address@ == self.entries()[i].address@
                    &&& copies@[i].coordinate == self.entries()[i].coordinate
                    &&& copies@[i].active == self.entries()[i].active
                },
    {
        let mut copies: Vec<StoredAddress> = Vec::new();
        let mut i: usize = 0;
        while i < self.stored_addresses.len()
            invariant
                i <= self.stored_addresses@.len(),
                copies@.len() == i,
                forall|k: int|
                    0 <= k < i ==> {
                        &&& (#[trigger] copies@[k]).address@ == self.stored_addresses@[k].address@
                        &&& copies@[k].coordinate == self.stored_addresses@[k].coordinate
                        &&& copies@[k].active == self.stored_addresses@[k].active
                    },
            decreases self.stored_addresses.len() - i,
        {
            let entry: &StoredAddress = &self.stored_addresses[i];
            copies.push(
                StoredAddress {
                    address: entry.address.clone(),
                    coordinate: entry.coordinate,
                    active: entry.active,
                },
            );
            i = i + 1;
        }
        copies
    }

    /// Takes the entry for an address out of the store, if there is one.
    pub fn remove_address(&mut self, address: &str)
        requires
            old(self).well_formed(),
        ensures
            final(self).well_formed(),
            has_no_entry(old(self).entries(), address@) ==> final(self).entries() == old(
                self,
            ).entries(),
            forall|at: int|
                is_entry_for(old(self).entries(), address@, at) ==> final(self).entries() == old(
                    self,
                ).entries().remove(at),
            has_no_entry(final(self).entries(), address@),
    {
        match self.position_of(address) {
            Some(at) => {
                self.stored_addresses.remove(at);
            },
            None => {},
        }
    }

    /// Turns the wish to hear about the cleanings of an address on if it is
    /// off, and off if it is on.
    pub fn toggle_address(&mut self, address: &str)
        requires
            old(self).well_formed(),
        ensures
            final(self).well_formed(),
            has_no_entry(old(self).entries(), address@) ==> final(self).entries() == old(
                self,
            ).entries(),
            forall|at: int|
                is_entry_for(old(self).entries(), address@, at) ==> final(self).entries() == old(
                    self,
                ).entries().update(
                    at,
                    StoredAddress {
                        active: !old(self).entries()[at].active,
                        ..old(self).entries()[at]
                    },
                ),
    {
        match self.position_of(address) {
            Some(at) => {
                let held: &StoredAddress = &self.stored_addresses[at];
                let turned: StoredAddress = StoredAddress {
                    address: held.address.clone(),
                    coordinate: held.coordinate,
                    active: !held.active,
                };
                self.stored_addresses.set(at, turned);
            },
            None => {},
        }
    }

    /// The number of stored addresses of which the user wants to hear.
    pub fn active_count(&self) -> (number: usize)
        ensures
            number == active_entries(self.entries()),
    {
        let mut number: usize = 0;
        let mut i: usize = 0;
        while i < self.stored_addresses.len()
            invariant
                i <= self.stored_addresses@.len(),
                number == active_entries(self.stored_addresses@.take(i as int)),
                number <= i,
            decreases self.stored_addresses.len() - i,
        {
            proof {
                let longer = self.stored_addresses@.take(i + 1);
                assert(longer.drop_last() =~= self.stored_addresses@.take(i as int));
                assert(longer.last() == self.stored_addresses@[i as int]);
            }
            if self.stored_addresses[i].active {
                number = number + 1;
            }
            i = i + 1;
        }
        assert(self.stored_addresses@.take(self.stored_addresses@.len() as int)
            =~= self.stored_addresses@);
        number
    }

    /// Takes every address out of the store.
    pub fn clear_all(&mut self)
        ensures
            final(self).entries().len() == 0,
            final(self).well_formed(),
    {
        self.stored_addresses.clear();
    }

    /// The number of stored addresses.
    pub fn count(&self) -> (number: usize)
        ensures
            number == self.entries().len(),
    {
        self.stored_addresses.len()
    }
}

impl Default for AppState {
    fn default() -> (state: Self)
        ensures
            state.entries().len() == 0,
            state.well_formed(),
    {
        Self::new()
    }
}

} // verus!
