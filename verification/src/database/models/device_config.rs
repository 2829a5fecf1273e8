use vstd::prelude::*;

verus! {

/// Where a device keeps the archive: its locked (encrypted) and unlocked paths.
#[derive(Debug, Clone)]
pub struct DeviceConfig {
    pub id: i64,
    pub device_id: i64,
    pub locked_path: Option<String>,
    pub unlocked_path: Option<String>,
}

/// The values with which a `DeviceConfig` is updated.
pub struct UpdateDeviceConfig {
    pub id: i64,
    pub device_id: i64,
    pub locked_path: Option<String>,
    pub unlocked_path: Option<String>,
}

impl From<DeviceConfig> for UpdateDeviceConfig {
    fn from(device_config: DeviceConfig) -> (update: Self) {
        UpdateDeviceConfig {
            id: device_config.id,
            device_id: device_config.device_id,
            locked_path: device_config.locked_path,
            unlocked_path: device_config.unlocked_path,
        }
    }
}

impl vstd::std_specs::convert::FromSpecImpl<DeviceConfig> for UpdateDeviceConfig {
    open spec fn obeys_from_spec() -> bool {
        true
    }

    open spec fn from_spec(device_config: DeviceConfig) -> Self {
        UpdateDeviceConfig {
            id: device_config.id,
            device_id: device_config.device_id,
            locked_path: device_config.locked_path,
            unlocked_path: device_config.unlocked_path,
        }
    }
}

impl UpdateDeviceConfig {
    /// The update that sets the locked path of `device_config` to `locked_path`.
    pub fn with_locked_path(device_config: DeviceConfig, locked_path: String) -> (update: Self)
        ensures
            update.id == device_config.id,
            update.device_id == device_config.device_id,
            update.locked_path == Some(locked_path),
            update.unlocked_path == device_config.unlocked_path,
    {
        let mut config = UpdateDeviceConfig::from(device_config);
        config.locked_path = Some(locked_path);
        config
    }

    /// The update that sets the unlocked path of `device_config` to `unlocked_path`.
    pub fn with_unlocked_path(device_config: DeviceConfig, unlocked_path: String) -> (update: Self)
        ensures
            update.id == device_config.id,
            update.device_id == device_config.device_id,
            update.locked_path == device_config.locked_path,
            update.unlocked_path == Some(unlocked_path),
    {
        let mut config = UpdateDeviceConfig::from(device_config);
        config.unlocked_path = Some(unlocked_path);
        config
    }
}

} // verus!
