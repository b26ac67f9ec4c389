//! What a media changer holds.

use vstd::prelude::*;

verus! {

/// A volume in a slot of a changer.
pub struct DataElement {
    pub volume_id: Option<String>,
    pub media_wear_indicator: Option<u64>,
}

/// Whether a slot holds a volume.
pub enum MediaElementStatus {
    Empty,
    Full(DataElement),
}

/// A slot of a changer.
pub struct MediaSlot {
    pub index: u64,
    pub status: MediaElementStatus,
}

/// A device that holds volumes in numbered slots.
pub trait MediaChanger {
    /// The number of slots.
    fn get_slot_count(&self) -> u64;

    /// What the slot with the given number holds.
    fn get_slot(&self, slot_id: u64) -> MediaSlot;
}

} // verus!
