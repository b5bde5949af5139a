//! From the codes of keys on input devices to Windows virtual-key codes.

use vstd::prelude::*;

verus! {

/// A table of virtual-key codes, by the code of the key on its device.
pub struct Keymap {
    table: Vec<Option<u32>>,
}

/// The virtual-key code of the key `code`. A key that is not in the table has none.
pub open spec fn vk_of(table: Seq<Option<u32>>, code: u16) -> Option<u32> {
    if code < table.len() {
        table[code as int]
    } else {
        None
    }
}

impl Keymap {
    /// The table.
    pub closed spec fn view(&self) -> Seq<Option<u32>> {
        self.table@
    }

    /// A keymap with a table.
    pub fn new(table: Vec<Option<u32>>) -> (r: Keymap)
        ensures
            r@ == table@,
    {
        Keymap { table }
    }

    /// The virtual-key code of a key, where it has one.
    pub fn evdev_to_vk(&self, code: u16) -> (r: Option<u32>)
        ensures
            r == vk_of(self@, code),
    {
        if (code as usize) < self.table.len() {
            self.table[code as usize]
        } else {
            None
        }
    }
}

/// A key has the virtual-key code that stands at its place in the table, and none where
/// the table ends before or has none there.
pub proof fn law_key_has_the_code_at_its_place(table: Seq<Option<u32>>, code: u16, vk: u32)
    ensures
        vk_of(table, code) == Some(vk) <==> code < table.len() && table[code as int] == Some(vk),
        code >= table.len() ==> vk_of(table, code) is None,
{
}

} // verus!
