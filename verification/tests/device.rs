use rusbee::commands::device::{
    display_value, plan_attach, plan_detach, usbid, AttachPlan, DetachPlan, DeviceError, DeviceRow,
};
use rusbee::device::{mark_attached, Attachment, UsbDevice, UsbDeviceMetadata};

fn device(busid: &str) -> UsbDevice {
    UsbDevice {
        busid: busid.to_string(),
        vendor_id: "1234".to_string(),
        product_id: "5678".to_string(),
        name: "Test USB device".to_string(),
        bound: false,
        attached: false,
        attached_port: None,
        metadata: UsbDeviceMetadata::default(),
    }
}

#[test]
fn mark_attached_sets_ports_of_imported_devices() {
    let mut devices = vec![device("1-2"), device("3-4")];
    devices[1].attached = true;
    devices[1].attached_port = Some(9);
    let attachments = vec![
        Attachment { port: 0, remote_busid: "1-2".to_string() },
        Attachment { port: 5, remote_busid: "7-7".to_string() },
        Attachment { port: 3, remote_busid: "1-2".to_string() },
    ];
    mark_attached(&mut devices, &attachments);
    assert!(devices[0].attached);
    assert_eq!(devices[0].attached_port, Some(3));
    assert!(!devices[1].attached);
    assert_eq!(devices[1].attached_port, None);
    assert_eq!(devices[0].busid, "1-2");
}

#[test]
fn usbid_joins_vendor_and_product() {
    let d = device("1-2");
    assert_eq!(usbid(&d), "1234:5678");
    let mut unknown = device("1-2");
    unknown.product_id = String::new();
    assert_eq!(usbid(&unknown), "unknown");
}

#[test]
fn display_value_names_empty_values_unknown() {
    assert_eq!(display_value(String::new()), "unknown");
    assert_eq!(display_value("Logitech".to_string()), "Logitech");
}

#[test]
fn device_row_shows_unknown_names() {
    let mut d = device("1-2");
    d.bound = true;
    d.metadata.product = "Receiver".to_string();
    let row = DeviceRow::from_device(d);
    assert_eq!(row.busid, "1-2");
    assert_eq!(row.usbid, "1234:5678");
    assert!(row.bound);
    assert!(!row.attached);
    assert_eq!(row.manufacturer, "unknown");
    assert_eq!(row.product, "Receiver");
}

#[test]
fn attach_plan_binds_unbound_devices_first() {
    let devices = vec![device("1-1"), device("1-2")];
    match plan_attach(devices, "1-2").unwrap() {
        AttachPlan::Attach { device, bind_first } => {
            assert_eq!(device.busid, "1-2");
            assert!(bind_first);
        }
        AttachPlan::AlreadyAttached(_) => panic!("device is not attached"),
    }

    let mut bound = device("1-2");
    bound.bound = true;
    match plan_attach(vec![bound], "1-2").unwrap() {
        AttachPlan::Attach { bind_first, .. } => assert!(!bind_first),
        AttachPlan::AlreadyAttached(_) => panic!("device is not attached"),
    }
}

#[test]
fn attach_plan_skips_attached_devices() {
    let mut d = device("1-2");
    d.attached = true;
    d.attached_port = Some(0);
    assert!(matches!(plan_attach(vec![d], "1-2"), Ok(AttachPlan::AlreadyAttached(_))));
}

#[test]
fn attach_plan_rejects_unknown_busid() {
    let error = plan_attach(vec![device("1-2")], "9-9").err().unwrap();
    assert_eq!(error, DeviceError::NotFound { busid: "9-9".to_string() });
    assert_eq!(error.message(), "device 9-9 was not found");
}

#[test]
fn detach_plan_uses_the_attached_port() {
    let mut d = device("1-2");
    d.attached = true;
    d.attached_port = Some(4);
    match plan_detach(vec![device("1-1"), d], "1-2").unwrap() {
        DetachPlan::Detach { device, port } => {
            assert_eq!(device.busid, "1-2");
            assert_eq!(port, 4);
        }
        DetachPlan::NotAttached(_) => panic!("device is attached"),
    }
    assert!(matches!(plan_detach(vec![device("1-2")], "1-2"), Ok(DetachPlan::NotAttached(_))));
    assert!(plan_detach(vec![], "1-2").is_err());
}
