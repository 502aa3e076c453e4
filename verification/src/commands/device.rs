//! The `device` command: its arguments, its table rows, and what attaching or
//! detaching a device has to do.
use vstd::prelude::*;

use crate::commands::server::{device_not_found, device_not_found_message};
use crate::device::{has_busid, is_first_with_busid, position_of_busid, UsbDevice};
use crate::text::concat;

verus! {

/// The arguments of `rusbee device`.
#[derive(Debug, Clone)]
pub struct DeviceArgs {
    pub command: DeviceCommand,
}

/// The subcommands of `rusbee device`.
#[derive(Debug, Clone)]
pub enum DeviceCommand {
    /// List server devices and mark those attached to this client.
    List,
    /// Bind a server-side USB device to usbip-host.
    Bind { busid: String },
    /// Unbind a server-side USB device from usbip-host.
    Unbind { busid: String },
    /// Bind a server-side USB device, then attach it to this client.
    Attach { busid: String },
    /// Detach a server-side USB device from this client.
    Detach { busid: String },
}

/// The `vendor:product` id of a device, or `unknown` where either part is
/// missing.
pub open spec fn spec_usbid(vendor_id: Seq<char>, product_id: Seq<char>) -> Seq<char> {
    if vendor_id.len() == 0 || product_id.len() == 0 {
        "unknown"@
    } else {
        vendor_id + ":"@ + product_id
    }
}

/// The `vendor:product` id of a device, or `unknown`.
pub fn usbid(device: &UsbDevice) -> (r: String)
    ensures
        r@ == spec_usbid(device.vendor_id@, device.product_id@),
{
    if device.vendor_id.as_str().is_empty() || device.product_id.as_str().is_empty() {
        "unknown".to_owned()
    } else {
        let a = concat(device.vendor_id.as_str(), ":");
        concat(a.as_str(), device.product_id.as_str())
    }
}

/// A value for display: `unknown` where it is empty.
pub open spec fn spec_display_value(value: Seq<char>) -> Seq<char> {
    if value.len() == 0 {
        "unknown"@
    } else {
        value
    }
}

/// A value for display: `unknown` where it is empty.
pub fn display_value(value: String) -> (r: String)
    ensures
        r@ == spec_display_value(value@),
{
    if value.as_str().is_empty() {
        "unknown".to_owned()
    } else {
        value
    }
}

/// A row of the `device list` table.
#[derive(Debug, Clone)]
pub struct DeviceRow {
    pub busid: String,
    pub usbid: String,
    pub bound: bool,
    pub attached: bool,
    pub manufacturer: String,
    pub product: String,
}

impl DeviceRow {
    /// The table row of a device.
    pub fn from_device(device: UsbDevice) -> (r: Self)
        ensures
            r.busid@ == device.busid@,
            r.usbid@ == spec_usbid(device.vendor_id@, device.product_id@),
            r.bound == device.bound,
            r.attached == device.attached,
            r.manufacturer@ == spec_display_value(device.metadata.manufacturer@),
            r.product@ == spec_display_value(device.metadata.product@),
    {
        let usbid = usbid(&device);
        DeviceRow {
            usbid,
            busid: device.busid,
            bound: device.bound,
            attached: device.attached,
            manufacturer: display_value(device.metadata.manufacturer),
            product: display_value(device.metadata.product),
        }
    }
}

/// Why a device command cannot go on.
#[derive(Debug, Clone, PartialEq, Eq)]
pub enum DeviceError {
    /// No listed device has the busid.
    NotFound { busid: String },
}

impl DeviceError {
    /// The text of the error (what `Display` shows).
    pub fn message(&self) -> (r: String)
        ensures
            match self {
                DeviceError::NotFound { busid } => r@ == device_not_found_message(busid@),
            },
    {
        match self {
            DeviceError::NotFound { busid } => device_not_found(busid.as_str()),
        }
    }
}

/// What `device attach` does with the named device.
#[derive(Debug, Clone)]
pub enum AttachPlan {
    /// The device is attached already: nothing to do.
    AlreadyAttached(UsbDevice),
    /// Attach the device, binding it on the server first where it is not bound.
    Attach { device: UsbDevice, bind_first: bool },
}

/// What `device detach` does with the named device.
#[derive(Debug, Clone)]
pub enum DetachPlan {
    /// The device is not attached: nothing to do.
    NotAttached(UsbDevice),
    /// Detach the local port that imports the device.
    Detach { device: UsbDevice, port: u16 },
}

/// Decides `device attach` for `busid` over the devices listed with their
/// local attachments.
pub fn plan_attach(devices: Vec<UsbDevice>, busid: &str) -> (r: Result<AttachPlan, DeviceError>)
    ensures
        match r {
            Err(DeviceError::NotFound { busid: b }) => !has_busid(devices@, busid@) && b@ == busid@,
            Ok(AttachPlan::AlreadyAttached(d)) => exists|i: int|
                #![auto]
                is_first_with_busid(devices@, busid@, i) && devices@[i] == d && d.attached,
            Ok(AttachPlan::Attach { device: d, bind_first }) => exists|i: int|
                #![auto]
                is_first_with_busid(devices@, busid@, i) && devices@[i] == d && !d.attached
                    && bind_first == !d.bound,
        },
{
    let mut devices = devices;
    let ghost listed = devices@;
    match position_of_busid(&devices, busid) {
        None => Err(DeviceError::NotFound { busid: busid.to_owned() }),
        Some(i) => {
            let d = devices.remove(i);
            assert(is_first_with_busid(listed, busid@, i as int) && listed[i as int] == d);
            if d.attached {
                Ok(AttachPlan::AlreadyAttached(d))
            } else {
                let bind_first = !d.bound;
                Ok(AttachPlan::Attach { device: d, bind_first })
            }
        },
    }
}

/// Decides `device detach` for `busid` over the devices listed with their
/// local attachments.
pub fn plan_detach(devices: Vec<UsbDevice>, busid: &str) -> (r: Result<DetachPlan, DeviceError>)
    ensures
        match r {
            Err(DeviceError::NotFound { busid: b }) => !has_busid(devices@, busid@) && b@ == busid@,
            Ok(DetachPlan::NotAttached(d)) => exists|i: int|
                #![auto]
                is_first_with_busid(devices@, busid@, i) && devices@[i] == d && d.attached_port
                    is None,
            Ok(DetachPlan::Detach { device: d, port }) => exists|i: int|
                #![auto]
                is_first_with_busid(devices@, busid@, i) && devices@[i] == d && d.attached_port
                    == Some(port),
        },
{
    let mut devices = devices;
    let ghost listed = devices@;
    match position_of_busid(&devices, busid) {
        None => Err(DeviceError::NotFound { busid: busid.to_owned() }),
        Some(i) => {
            let d = devices.remove(i);
            assert(is_first_with_busid(listed, busid@, i as int) && listed[i as int] == d);
            match d.attached_port {
                None => Ok(DetachPlan::NotAttached(d)),
                Some(port) => Ok(DetachPlan::Detach { device: d, port }),
            }
        },
    }
}

} // verus!
