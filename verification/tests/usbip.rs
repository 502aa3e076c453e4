use rusbee::device::{Attachment, UsbDevice, UsbDeviceMetadata};
use rusbee::usbip::command::{
    enrich_from_sysfs, is_usbip_host_driver, parse_usbip_list_human, parse_usbip_list_machine,
    parse_usbip_port, sysfs_value, usbip_listing, SysfsAttributes,
};
use rusbee::usbip::CommandUsbip;

#[test]
fn parses_human_list_output() {
    let output = r#"
- busid 1-2 (046d:c52b)
   Logitech, Inc. : Unifying Receiver
"#;

    let devices = parse_usbip_list_human(output);

    assert_eq!(devices.len(), 1);
    assert_eq!(devices[0].busid, "1-2");
    assert_eq!(devices[0].vendor_id, "046d");
    assert_eq!(devices[0].product_id, "c52b");
    assert_eq!(devices[0].name, "Logitech, Inc. : Unifying Receiver");
}

#[test]
fn parses_port_output() {
    let output = r#"
Imported USB devices
====================
Port 00: <Port in Use> at High Speed(480Mbps)
       Logitech, Inc. : Unifying Receiver (046d:c52b)
       3-1 -> usbip://192.168.1.10:3240/1-2
           -> remote bus/dev 001/002
"#;

    let attachments = parse_usbip_port(output);

    assert_eq!(attachments.len(), 1);
    assert_eq!(attachments[0].port, 0);
    assert_eq!(attachments[0].remote_busid, "1-2");
}

#[test]
fn human_list_splits_manufacturer_and_product() {
    let output = "- busid 1-2 (046d:c52b)\n   Logitech, Inc. : Unifying Receiver\n- busid 3-4 (1234:5678)\n";
    let devices = parse_usbip_list_human(output);
    assert_eq!(devices.len(), 2);
    assert_eq!(devices[0].metadata.manufacturer, "Logitech, Inc.");
    assert_eq!(devices[0].metadata.product, "Unifying Receiver");
    assert_eq!(devices[1].busid, "3-4");
    assert_eq!(devices[1].vendor_id, "1234");
    assert_eq!(devices[1].product_id, "5678");
    assert_eq!(devices[1].name, "Unknown USB device");
    assert!(!devices[1].bound && !devices[1].attached && devices[1].attached_port.is_none());
}

#[test]
fn human_list_ignores_lines_before_a_device_and_colon_lines() {
    let output = "Local USB devices\n=================\n- busid 1-1 (aaaa:bbbb)\n   : some detail\n";
    let devices = parse_usbip_list_human(output);
    assert_eq!(devices.len(), 1);
    assert_eq!(devices[0].name, "Unknown USB device");
}

#[test]
fn human_list_without_ids_leaves_them_empty() {
    let devices = parse_usbip_list_human("- busid 2-1 (nothing)\n");
    assert_eq!(devices.len(), 1);
    assert_eq!(devices[0].vendor_id, "");
    assert_eq!(devices[0].product_id, "");
}

#[test]
fn human_list_header_without_space_drops_the_device() {
    let devices = parse_usbip_list_human("- busid 1-2\n   Some Device\n");
    assert!(devices.is_empty());
}

#[test]
fn parses_machine_list_output() {
    let output = "busid=1-2#usbid=046d:c52b#product=Unifying Receiver#manufacturer=Logitech#\nbusid=3-4#usbid=1234:5678#\nnoise line\nbusid=#usbid=1:2#\n";
    let devices = parse_usbip_list_machine(output);
    assert_eq!(devices.len(), 2);
    assert_eq!(devices[0].busid, "1-2");
    assert_eq!(devices[0].vendor_id, "046d");
    assert_eq!(devices[0].product_id, "c52b");
    assert_eq!(devices[0].name, "Logitech Unifying Receiver");
    assert_eq!(devices[0].metadata.manufacturer, "Logitech");
    assert_eq!(devices[0].metadata.product, "Unifying Receiver");
    assert_eq!(devices[1].busid, "3-4");
    assert_eq!(devices[1].name, "Unknown USB device");
}

#[test]
fn machine_list_later_fields_win() {
    let devices = parse_usbip_list_machine("busid=1-1#busid=1-3#usbid=aa:bb#usbid=nocolon#product=P\n");
    assert_eq!(devices.len(), 1);
    assert_eq!(devices[0].busid, "1-3");
    assert_eq!(devices[0].vendor_id, "aa");
    assert_eq!(devices[0].product_id, "bb");
    assert_eq!(devices[0].name, "P");
}

#[test]
fn machine_list_skips_lines_not_starting_with_busid() {
    let devices = parse_usbip_list_machine("  busid=1-2#\nbusid=5-6\r\n");
    assert_eq!(devices.len(), 1);
    assert_eq!(devices[0].busid, "5-6");
}

#[test]
fn port_output_reads_port_numbers() {
    let output = "Port 07: <Port in Use>\n  1-1 -> usbip://10.0.0.1:3240/2-4\nPort 12: x\n  no url here /x\n  y -> usbip://h/5-6\n";
    let attachments = parse_usbip_port(output);
    assert_eq!(attachments.len(), 2);
    assert_eq!(attachments[0].port, 7);
    assert_eq!(attachments[0].remote_busid, "2-4");
    assert_eq!(attachments[1].port, 12);
    assert_eq!(attachments[1].remote_busid, "5-6");
}

#[test]
fn port_output_before_any_port_line_is_ignored() {
    let attachments = parse_usbip_port("  1-1 -> usbip://10.0.0.1:3240/2-4\n");
    assert!(attachments.is_empty());
}

#[test]
fn port_number_that_is_not_a_number_reads_as_zero() {
    let attachments = parse_usbip_port("Port xx: y\n a -> usbip://h/1-1\nPort 70000:\n b -> usbip://h/2-2\n");
    assert_eq!(attachments.len(), 2);
    assert_eq!(attachments[0].port, 0);
    assert_eq!(attachments[1].port, 0);
}

#[test]
fn port_busids_have_no_slash() {
    let attachments = parse_usbip_port("Port 01:\n x -> usbip://a/b/c/9-9\n");
    assert_eq!(attachments[0].remote_busid, "9-9");
    assert!(!attachments[0].remote_busid.contains('/'));
}

fn listed(busid: &str, name: &str) -> UsbDevice {
    UsbDevice {
        busid: busid.to_string(),
        vendor_id: "046d".to_string(),
        product_id: "c52b".to_string(),
        name: name.to_string(),
        bound: false,
        attached: false,
        attached_port: None,
        metadata: UsbDeviceMetadata::named("Listed".to_string(), String::new()),
    }
}

fn no_attributes() -> SysfsAttributes {
    SysfsAttributes {
        manufacturer: None,
        product: None,
        serial: None,
        speed: None,
        version: None,
        bcd_device: None,
        busnum: None,
        devnum: None,
        device_class: None,
        device_subclass: None,
        device_protocol: None,
        driver: None,
    }
}

#[test]
fn sysfs_values_are_trimmed_and_empty_ones_dropped() {
    assert_eq!(sysfs_value(Some("  480\n".to_string())), Some("480".to_string()));
    assert_eq!(sysfs_value(Some(" \n".to_string())), None);
    assert_eq!(sysfs_value(None), None);
}

#[test]
fn enrich_replaces_names_found_in_sysfs() {
    let mut device = listed("1-2", "Listed");
    let mut attributes = no_attributes();
    attributes.manufacturer = Some("Logitech\n".to_string());
    attributes.product = Some("Receiver\n".to_string());
    attributes.speed = Some("12\n".to_string());
    attributes.serial = Some("\n".to_string());
    attributes.driver = Some("usbip-host".to_string());
    enrich_from_sysfs(&mut device, attributes);
    assert_eq!(device.name, "Logitech Receiver");
    assert_eq!(device.metadata.manufacturer, "Logitech");
    assert_eq!(device.metadata.product, "Receiver");
    assert_eq!(device.metadata.speed.as_deref(), Some("12"));
    assert_eq!(device.metadata.serial, None);
    assert_eq!(device.metadata.driver.as_deref(), Some("usbip-host"));
    assert_eq!(device.busid, "1-2");
}

#[test]
fn enrich_keeps_listed_names_where_sysfs_has_none() {
    let mut device = listed("1-2", "Old name");
    enrich_from_sysfs(&mut device, no_attributes());
    assert_eq!(device.metadata.manufacturer, "Listed");
    assert_eq!(device.name, "Listed");

    let mut unnamed = listed("1-3", "Old name");
    unnamed.metadata.manufacturer = String::new();
    enrich_from_sysfs(&mut unnamed, no_attributes());
    assert_eq!(unnamed.name, "Old name");
}

#[test]
fn usbip_host_driver_means_bound() {
    assert!(is_usbip_host_driver(&Some("usbip-host".to_string())));
    assert!(!is_usbip_host_driver(&Some("usbhid".to_string())));
    assert!(!is_usbip_host_driver(&None));
}

#[test]
fn command_usbip_is_constructible() {
    let _usbip = CommandUsbip::new();
    let _attachment = Attachment { port: 1, remote_busid: "1-1".to_string() };
}

#[test]
fn listing_falls_back_to_the_human_format() {
    let machine = "busid=1-2#usbid=046d:c52b#\n";
    let devices = usbip_listing(machine, None).unwrap();
    assert_eq!(devices.len(), 1);
    assert_eq!(devices[0].busid, "1-2");

    assert!(usbip_listing("", None).is_none());
    let human = "- busid 3-4 (1234:5678)\n   Acme : Widget\n";
    let devices = usbip_listing("", Some(human)).unwrap();
    assert_eq!(devices.len(), 1);
    assert_eq!(devices[0].busid, "3-4");
    assert_eq!(devices[0].name, "Acme : Widget");

    let devices = usbip_listing(machine, Some(human)).unwrap();
    assert_eq!(devices[0].busid, "1-2");
}
