//! The choice of the GPU queue family that a window renders and presents with.
//!
//! The caller lists, for each physical device in the order in which the driver
//! enumerates them, what it learnt of each queue family; the choice among them
//! is made here.

use vstd::prelude::*;

verus! {

/// The bit of the graphics capability in a family's flags.
pub const GRAPHICS: u32 = 0x1;

/// The bit of the transfer capability in a family's flags.
pub const TRANSFER: u32 = 0x4;

/// What is known of one queue family: its capability flags as raw bits, and
/// whether it can present to the display that the window is on.
#[derive(Clone, Copy, Debug, PartialEq, Eq)]
pub struct QueueFamily {
    pub flags: u32,
    pub presentation: bool,
}

/// A queue family, named by the position of its device and its own index
/// among the families of that device.
#[derive(Clone, Copy, Debug, PartialEq, Eq)]
pub struct QueueChoice {
    pub device: usize,
    pub family: usize,
}

impl QueueFamily {
    /// A family is usable if it has both the graphics and the transfer
    /// capability and can present.
    pub open spec fn usable(self) -> bool {
        &&& self.flags & GRAPHICS == GRAPHICS
        &&& self.flags & TRANSFER == TRANSFER
        &&& self.presentation
    }

    /// Whether the family is usable.
    pub fn is_usable(&self) -> (usable: bool)
        ensures
            usable == self.usable(),
    {
        let wanted: u32 = graphics_bit() | transfer_bit();
        let flags: u32 = self.flags;
        assert((flags & (0x1u32 | 0x4u32) == (0x1u32 | 0x4u32)) <==> (flags & 0x1u32 == 0x1u32
            && flags & 0x4u32 == 0x4u32)) by (bit_vector);
        flags_contain(flags, wanted) && self.presentation
    }
}

/// The raw bits of `ash::vk::QueueFlags::GRAPHICS`. Trusted: the flag is bit 0.
#[verifier::external_body]
fn graphics_bit() -> (bits: u32)
    ensures
        bits == GRAPHICS,
{
    ash::vk::QueueFlags::GRAPHICS.as_raw()
}

/// The raw bits of `ash::vk::QueueFlags::TRANSFER`. Trusted: the flag is bit 2.
#[verifier::external_body]
fn transfer_bit() -> (bits: u32)
    ensures
        bits == TRANSFER,
{
    ash::vk::QueueFlags::TRANSFER.as_raw()
}

/// Calls `ash::vk::QueueFlags::contains` on the flag sets with the raw bits
/// `flags` and `wanted`. Trusted: the answer is whether every bit of `wanted`
/// is set in `flags`.
#[verifier::external_body]
fn flags_contain(flags: u32, wanted: u32) -> (contained: bool)
    ensures
        contained == (flags & wanted == wanted),
{
    ash::vk::QueueFlags::from_raw(flags).contains(ash::vk::QueueFlags::from_raw(wanted))
}

/// `family` is the first usable one among `families`.
pub open spec fn first_usable(families: Seq<QueueFamily>, family: int) -> bool {
    &&& 0 <= family < families.len()
    &&& families[family].usable()
    &&& forall|f: int| 0 <= f < family ==> !(#[trigger] families[f]).usable()
}

/// None of `families` is usable.
pub open spec fn none_usable(families: Seq<QueueFamily>) -> bool {
    forall|f: int| 0 <= f < families.len() ==> !(#[trigger] families[f]).usable()
}

/// The index of the first usable family of one device, if it has any.
pub fn first_usable_family(families: &Vec<QueueFamily>) -> (family: Option<usize>)
    ensures
        match family {
            Some(family) => first_usable(families@, family as int),
            None => none_usable(families@),
        },
{
    let count: usize = families.len();
    let mut f: usize = 0;
    while f < count
        invariant
            f <= count,
            count == families@.len(),
            forall|g: int| 0 <= g < f ==> !(#[trigger] families@[g]).usable(),
        decreases count - f,
    {
        if families[f].is_usable() {
            return Some(f);
        }
        f = f + 1;
    }
    None
}

/// Chooses the queue family to use: the first usable family of the first
/// device that has one. Where no device has a usable family there is no choice.
pub fn select_queue_family(devices: &Vec<Vec<QueueFamily>>) -> (choice: Option<QueueChoice>)
    ensures
        match choice {
            Some(choice) => choice.device < devices@.len() && first_usable(
                devices@[choice.device as int]@,
                choice.family as int,
            ) && forall|d: int| 0 <= d < choice.device ==> none_usable((#[trigger] devices@[d])@),
            None => forall|d: int| 0 <= d < devices@.len() ==> none_usable((#[trigger] devices@[d])@),
        },
{
    let count: usize = devices.len();
    let mut d: usize = 0;
    while d < count
        invariant
            d <= count,
            count == devices@.len(),
            forall|e: int| 0 <= e < d ==> none_usable((#[trigger] devices@[e])@),
        decreases count - d,
    {
        match first_usable_family(&devices[d]) {
            Some(family) => {
                return Some(QueueChoice { device: d, family });
            },
            None => {},
        }
        d = d + 1;
    }
    None
}

} // verus!
