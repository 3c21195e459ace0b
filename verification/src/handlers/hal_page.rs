//! The page of devices.

use crate::clock::{Moment, STAMP_PATTERN};
use crate::ids::{format_uuid, uuid_text};
use crate::text::{join, join_strings, texts};
use vstd::prelude::*;

verus! {

/// The texts of ids.
pub open spec fn id_texts(ids: Seq<u128>) -> Seq<Seq<char>> {
    Seq::new(ids.len(), |i: int| uuid_text(ids[i]))
}

/// The agents that a device is granted or denied to, as they are shown.
pub fn holders(ids: &Vec<u128>) -> (r: String)
    ensures
        r@ == join(id_texts(ids@), ", "@),
{
    let mut list: Vec<String> = Vec::new();
    let mut i: usize = 0;
    while i < ids.len()
        invariant
            i <= ids@.len(),
            list@.len() == i,
            forall|k: int| 0 <= k < i ==> (#[trigger] list@[k])@ == uuid_text(ids@[k]),
        decreases ids.len() - i,
    {
        list.push(format_uuid(ids[i]));
        i += 1;
    }
    assert(texts(list@) =~= id_texts(ids@));
    join_strings(list.as_slice(), ", ")
}

/// A device.
pub struct Device {
    pub id: String,
    pub device_type: String,
    pub status: String,
    pub granted_to: Vec<u128>,
    pub denied_to: Vec<u128>,
    pub first_seen: Moment,
    pub status_changed_at: Moment,
}

/// A device as the page shows it.
pub struct DeviceRow {
    pub id: String,
    pub device_type: String,
    pub status: String,
    pub granted_to: String,
    pub denied_to: String,
    pub first_seen: String,
    pub status_changed_at: String,
}

/// The device as the page shows it.
pub fn device_row(d: Device) -> (r: DeviceRow)
    ensures
        r.id == d.id,
        r.device_type == d.device_type,
        r.status == d.status,
        r.granted_to@ == join(id_texts(d.granted_to@), ", "@),
        r.denied_to@ == join(id_texts(d.denied_to@), ", "@),
        r.first_seen@ == d.first_seen.stamped(STAMP_PATTERN@),
        r.status_changed_at@ == d.status_changed_at.stamped(STAMP_PATTERN@),
{
    DeviceRow {
        id: d.id,
        device_type: d.device_type,
        status: d.status,
        granted_to: holders(&d.granted_to),
        denied_to: holders(&d.denied_to),
        first_seen: d.first_seen.stamp(STAMP_PATTERN),
        status_changed_at: d.status_changed_at.stamp(STAMP_PATTERN),
    }
}

} // verus!
