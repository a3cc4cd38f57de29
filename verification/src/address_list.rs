//! The list of addresses on the screen of the phone and what the touches of
//! the user do to it.

use vstd::prelude::*;
use vstd::string::StringExecFns;

verus! {

/// One address of the list.
#[derive(Clone, Debug, PartialEq)]
pub struct AddressItem {
    /// The number by which the item is found again.
    pub id: usize,
    pub address: String,
    pub postal: String,
    /// Whether the address is kept in storage.
    pub stored: bool,
}

/// The list with the two input fields above it and the dialog that asks
/// before an address is deleted.
#[derive(Clone, Debug, PartialEq)]
pub struct AddressList {
    pub address_input: String,
    pub postal_input: String,
    pub items: Vec<AddressItem>,
    /// The number that the next new item gets.
    pub next_id: usize,
    /// Whether the dialog is open.
    pub show_dialog: bool,
    /// The number of the item that the dialog asks about.
    pub delete_id: Option<usize>,
}

/// The items without those of the number `id`.
pub open spec fn without(items: Seq<AddressItem>, id: usize) -> Seq<AddressItem>
    decreases items.len(),
{
    if items.len() == 0 {
        Seq::empty()
    } else if items.last().id == id {
        without(items.drop_last(), id)
    } else {
        without(items.drop_last(), id).push(items.last())
    }
}

/// `at` is the position of the first item of the number `id`.
pub open spec fn is_first_of(items: Seq<AddressItem>, id: usize, at: int) -> bool {
    &&& 0 <= at < items.len()
    &&& items[at].id == id
    &&& forall|j: int| 0 <= j < at ==> (#[trigger] items[j]).id != id
}

/// No item has the number `id`.
pub open spec fn has_none_of(items: Seq<AddressItem>, id: usize) -> bool {
    forall|j: int| 0 <= j < items.len() ==> (#[trigger] items[j]).id != id
}

impl AddressList {
    /// The empty list, whose first item will get the number 1.
    pub fn new() -> (list: Self)
        ensures
            list.address_input@.len() == 0,
            list.postal_input@.len() == 0,
            list.items@.len() == 0,
            list.next_id == 1,
            !list.show_dialog,
            list.delete_id is None,
    {
        AddressList {
            address_input: String::new(),
            postal_input: String::new(),
            items: Vec::new(),
            next_id: 1,
            show_dialog: false,
            delete_id: None,
        }
    }

    /// A new item can be added: both input fields hold text and a number is
    /// left for the item.
    pub open spec fn can_add(self) -> bool {
        &&& self.address_input@.len() > 0
        &&& self.postal_input@.len() > 0
        &&& self.next_id < usize::MAX
    }

    /// Adds what the input fields hold to the list as a new item that is not
    /// stored, and empties the fields. Nothing happens while a field is
    /// empty.
    pub fn add_address(&mut self)
        ensures
            final(self).show_dialog == old(self).show_dialog,
            final(self).delete_id == old(self).delete_id,
            !old(self).can_add() ==> *final(self) == *old(self),
            old(self).can_add() ==> {
                &&& final(self).items@.len() == old(self).items@.len() + 1
                &&& final(self).items@.drop_last() == old(self).items@
                &&& final(self).items@.last().id == old(self).next_id
                &&& final(self).items@.last().address@ == old(self).address_input@
                &&& final(self).items@.last().postal@ == old(self).postal_input@
                &&& !final(self).items@.last().stored
                &&& final(self).address_input@.len() == 0
                &&& final(self).postal_input@.len() == 0
                &&& final(self).next_id == old(self).next_id + 1
            },
    {
        if self.address_input.as_str().unicode_len() == 0
            || self.postal_input.as_str().unicode_len() == 0 || self.next_id == usize::MAX {
            return ;
        }
        let item: AddressItem = AddressItem {
            id: self.next_id,
            address: self.address_input.clone(),
            postal: self.postal_input.clone(),
            stored: false,
        };
        self.items.push(item);
        self.address_input = String::new();
        self.postal_input = String::new();
        self.next_id = self.next_id + 1;
        assert(final(self).items@.drop_last() =~= old(self).items@);
    }

    /// Stores the first item of the number `id` if it is not stored, and
    /// takes it out of storage if it is.
    pub fn toggle_stored(&mut self, id: usize)
        ensures
            final(self).address_input == old(self).address_input,
            final(self).postal_input == old(self).postal_input,
            final(self).next_id == old(self).next_id,
            final(self).show_dialog == old(self).show_dialog,
            final(self).delete_id == old(self).delete_id,
            has_none_of(old(self).items@, id) ==> final(self).items@ == old(self).items@,
            forall|at: int|
                is_first_of(old(self).items@, id, at) ==> final(self).items@ == old(
                    self,
                ).items@.update(
                    at,
                    AddressItem { stored: !old(self).items@[at].stored, ..old(self).items@[at] },
                ),
    {
        let mut i: usize = 0;
        while i < self.items.len()
            invariant
                i <= self.items@.len(),
                *self == *old(self),
                forall|j: int| 0 <= j < i ==> (#[trigger] self.items@[j]).id != id,
            decreases self.items.len() - i,
        {
            if self.items[i].id == id {
                let held: &AddressItem = &self.items[i];
                let turned: AddressItem = AddressItem {
                    id: held.id,
                    address: held.address.clone(),
                    postal: held.postal.clone(),
                    stored: !held.stored,
                };
                self.items.set(i, turned);
                assert(is_first_of(old(self).items@, id, i as int));
                return ;
            }
            i = i + 1;
        }
    }

    /// Opens the dialog that asks whether the item of the number `id` is to
    /// be deleted.
    pub fn open_delete_dialog(&mut self, id: usize)
        ensures
            *final(self) == (AddressList { show_dialog: true, delete_id: Some(id), ..*old(self) }),
    {
        self.delete_id = Some(id);
        self.show_dialog = true;
    }

    /// Deletes the items of the number that the dialog asks about, and
    /// closes the dialog.
    pub fn confirm_delete(&mut self)
        ensures
            final(self).address_input == old(self).address_input,
            final(self).postal_input == old(self).postal_input,
            final(self).next_id == old(self).next_id,
            !final(self).show_dialog,
            final(self).delete_id is None,
            final(self).items@ == match old(self).delete_id {
                Some(id) => without(old(self).items@, id),
                None => old(self).items@,
            },
    {
        if let Some(id) = self.delete_id {
            let mut kept: Vec<AddressItem> = Vec::new();
            let mut i: usize = 0;
            while i < self.items.len()
                invariant
                    i <= self.items@.len(),
                    *self == *old(self),
                    kept@ == without(self.items@.take(i as int), id),
                decreases self.items.len() - i,
            {
                proof {
                    let longer = self.items@.take(i + 1);
                    assert(longer.drop_last() =~= self.items@.take(i as int));
                    assert(longer.last() == self.items@[i as int]);
                }
                if self.items[i].id != id {
                    let held: &AddressItem = &self.items[i];
                    kept.push(
                        AddressItem {
                            id: held.id,
                            address: held.address.clone(),
                            postal: held.postal.clone(),
                            stored: held.stored,
                        },
                    );
                }
                i = i + 1;
            }
            assert(self.items@.take(self.items@.len() as int) =~= self.items@);
            self.items = kept;
        }
        self.show_dialog = false;
        self.delete_id = None;
    }

    /// Closes the dialog without deleting anything.
    pub fn cancel_delete(&mut self)
        ensures
            *final(self) == (AddressList { show_dialog: false, delete_id: None, ..*old(self) }),
    {
        self.show_dialog = false;
        self.delete_id = None;
    }
}

} // verus!
