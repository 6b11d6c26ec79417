//! Bluetooth on Windows: the values exchanged with the Win32 Bluetooth API,
//! the decisions taken on its answers, wide-string conversions, and the
//! logic of a Bluetooth LE scan for one device.
pub mod btwinapi;
pub mod scan;
pub mod utils;
pub mod winapi;

pub use crate::winapi::{
    new_device_info, select_device_params, selected_device, BtDevice, DeviceInfo,
    DeviceSearchParams, Enumeration, Error, FindState, Radio, Result, SelectDeviceParams,
    SystemTime,
};
