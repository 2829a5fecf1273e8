use vstd::prelude::*;

use crate::database::models::device::Device;
use crate::database::models::file::File;

verus! {

/// The state of a file on a device.
#[derive(Clone, Debug)]
pub struct FileDevice {
    pub file_id: i64,
    pub device_id: i64,
    pub is_unlocked: bool,
    pub is_encrypted: bool,
    pub last_modified: u64,
}

impl FileDevice {
    /// The state of the stored `file` on the stored `device`.
    pub fn new(
        file: &File,
        device: &Device,
        is_unlocked: bool,
        is_encrypted: bool,
        last_modified: u64,
    ) -> (fd: Self)
        requires
            file.id is Some,
            device.id is Some,
        ensures
            fd.file_id == file.id->0,
            fd.device_id == device.id->0,
            fd.is_unlocked == is_unlocked,
            fd.is_encrypted == is_encrypted,
            fd.last_modified == last_modified,
    {
        FileDevice {
            file_id: file.id.unwrap(),
            device_id: device.id.unwrap(),
            is_unlocked,
            is_encrypted,
            last_modified,
        }
    }
}

} // verus!
