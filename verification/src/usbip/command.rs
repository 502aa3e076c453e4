//! Parsing of the output of the `usbip` command line tool, and the device
//! details derived from sysfs.
use vstd::prelude::*;

use crate::device::{
    devices_view, empty_metadata, named_metadata, opt_view, Attachment, DeviceView, MetadataView,
    UsbDevice, UsbDeviceMetadata,
};
use crate::text::{
    chars_eq, chars_of, concat, contains_exec, contains_seq, find_char, find_char_exec,
    lemma_find_char, lines, lines_exec, parse_u16, parse_u16_exec, rsplit_once_char,
    rsplit_once_char_exec, slice_chars, split_char, split_char_exec, split_once_char,
    split_once_char_exec, split_once_seq, split_once_seq_exec, starts_with, starts_with_exec,
    str_eq, string_of, strip_prefix, strip_prefix_exec, trim, trim_exec, trim_start, trim_start_exec, TrimSet,
};

verus! {

/// The `usbip` backend that runs the system tools.
#[derive(Clone, Copy, Debug)]
pub struct CommandUsbip;

impl CommandUsbip {
    pub fn new() -> (r: Self)
        ensures
            r == CommandUsbip,
    {
        CommandUsbip
    }
}

/// The name shown for a device whose manufacturer and product are unknown.
pub open spec fn unknown_device_name() -> Seq<char> {
    "Unknown USB device"@
}

/// The display name of a device: its manufacturer and product joined by a
/// space, whichever of them is known, or `fallback` when neither is.
pub open spec fn device_name(manufacturer: Seq<char>, product: Seq<char>, fallback: Seq<char>) -> Seq<
    char,
> {
    if manufacturer.len() > 0 && product.len() > 0 {
        manufacturer + " "@ + product
    } else if manufacturer.len() > 0 {
        manufacturer
    } else if product.len() > 0 {
        product
    } else {
        fallback
    }
}

/// A device as `usbip list` reports it: not bound, not attached.
pub open spec fn listed_device(
    busid: Seq<char>,
    vendor_id: Seq<char>,
    product_id: Seq<char>,
    name: Seq<char>,
    metadata: MetadataView,
) -> DeviceView {
    DeviceView {
        busid,
        vendor_id,
        product_id,
        name,
        bound: false,
        attached: false,
        attached_port: None,
        metadata,
    }
}

// ---------------------------------------------------------------------------
// `usbip list -p -l`: one line per device, `key=value` fields separated by `#`
// ---------------------------------------------------------------------------
/// The fields of a machine-readable device line read so far.
pub struct MachineFields {
    pub busid: Seq<char>,
    pub vendor_id: Seq<char>,
    pub product_id: Seq<char>,
    pub product: Seq<char>,
    pub manufacturer: Seq<char>,
}

/// The fields given by the `key=value` parts of a line; a later part overrides
/// an earlier one with the same key, a `usbid` without `:` changes nothing, and
/// parts without `=` or with another key are ignored.
pub open spec fn machine_fields(parts: Seq<Seq<char>>) -> MachineFields
    decreases parts.len(),
{
    if parts.len() == 0 {
        MachineFields {
            busid: seq![],
            vendor_id: seq![],
            product_id: seq![],
            product: seq![],
            manufacturer: seq![],
        }
    } else {
        let f = machine_fields(parts.drop_last());
        match split_once_char(parts.last(), '=') {
            None => f,
            Some((key, value)) => if key == "busid"@ {
                MachineFields { busid: value, ..f }
            } else if key == "usbid"@ {
                match split_once_char(value, ':') {
                    Some((vendor, product)) => MachineFields {
                        vendor_id: vendor,
                        product_id: product,
                        ..f
                    },
                    None => f,
                }
            } else if key == "product"@ {
                MachineFields { product: value, ..f }
            } else if key == "manufacturer"@ {
                MachineFields { manufacturer: value, ..f }
            } else {
                f
            },
        }
    }
}

/// The device described by one machine-readable line, if it names a busid.
pub open spec fn machine_device(line: Seq<char>) -> Option<DeviceView> {
    let f = machine_fields(split_char(line, '#'));
    if f.busid.len() == 0 {
        None
    } else {
        Some(
            listed_device(
                f.busid,
                f.vendor_id,
                f.product_id,
                device_name(f.manufacturer, f.product, unknown_device_name()),
                named_metadata(f.manufacturer, f.product),
            ),
        )
    }
}

/// The devices of the lines that start with `busid=`, in order.
pub open spec fn machine_devices(lines: Seq<Seq<char>>) -> Seq<DeviceView>
    decreases lines.len(),
{
    if lines.len() == 0 {
        seq![]
    } else {
        let earlier = machine_devices(lines.drop_last());
        if starts_with(lines.last(), "busid="@) {
            match machine_device(lines.last()) {
                Some(d) => earlier.push(d),
                None => earlier,
            }
        } else {
            earlier
        }
    }
}

/// The devices listed in the output of `usbip list -p -l`.
pub open spec fn spec_parse_usbip_list_machine(output: Seq<char>) -> Seq<DeviceView> {
    machine_devices(lines(output))
}

struct MachineFieldsExec {
    busid: Vec<char>,
    vendor_id: Vec<char>,
    product_id: Vec<char>,
    product: Vec<char>,
    manufacturer: Vec<char>,
}

impl MachineFieldsExec {
    spec fn model(&self) -> MachineFields {
        MachineFields {
            busid: self.busid@,
            vendor_id: self.vendor_id@,
            product_id: self.product_id@,
            product: self.product@,
            manufacturer: self.manufacturer@,
        }
    }
}

/// The display name of a device (see [`device_name`]).
pub fn device_name_exec(manufacturer: &String, product: &String, fallback: &String) -> (r: String)
    ensures
        r@ == device_name(manufacturer@, product@, fallback@),
{
    let m = manufacturer.as_str();
    let p = product.as_str();
    if !m.is_empty() && !p.is_empty() {
        let with_space = concat(m, " ");
        concat(with_space.as_str(), p)
    } else if !m.is_empty() {
        m.to_owned()
    } else if !p.is_empty() {
        p.to_owned()
    } else {
        fallback.as_str().to_owned()
    }
}

fn parse_machine_line(line: &Vec<char>) -> (r: Option<UsbDevice>)
    ensures
        match r {
            Some(d) => machine_device(line@) == Some(d@),
            None => machine_device(line@) is None,
        },
{
    let parts = split_char_exec(line, '#');
    let ghost parts_view = parts@.map_values(|x: Vec<char>| x@);
    let key_busid = chars_of("busid");
    let key_usbid = chars_of("usbid");
    let key_product = chars_of("product");
    let key_manufacturer = chars_of("manufacturer");
    let mut f = MachineFieldsExec {
        busid: Vec::new(),
        vendor_id: Vec::new(),
        product_id: Vec::new(),
        product: Vec::new(),
        manufacturer: Vec::new(),
    };
    assert(f.model() == machine_fields(parts_view.take(0)));
    let mut i: usize = 0;
    while i < parts.len()
        invariant
            0 <= i <= parts@.len(),
            parts_view == parts@.map_values(|x: Vec<char>| x@),
            parts_view == split_char(line@, '#'),
            key_busid@ == "busid"@,
            key_usbid@ == "usbid"@,
            key_product@ == "product"@,
            key_manufacturer@ == "manufacturer"@,
            f.model() == machine_fields(parts_view.take(i as int)),
        decreases parts@.len() - i,
    {
        assert(parts_view.take(i + 1).drop_last() =~= parts_view.take(i as int));
        assert(parts_view.take(i + 1).last() == parts@[i as int]@);
        match split_once_char_exec(&parts[i], '=') {
            None => {},
            Some((key, value)) => {
                if chars_eq(&key, &key_busid) {
                    f.busid = value;
                } else if chars_eq(&key, &key_usbid) {
                    match split_once_char_exec(&value, ':') {
                        Some((vendor, product)) => {
                            f.vendor_id = vendor;
                            f.product_id = product;
                        },
                        None => {},
                    }
                } else if chars_eq(&key, &key_product) {
                    f.product = value;
                } else if chars_eq(&key, &key_manufacturer) {
                    f.manufacturer = value;
                }
            },
        }
        i += 1;
    }
    assert(parts_view.take(parts@.len() as int) =~= parts_view);
    if f.busid.len() == 0 {
        return None;
    }
    let manufacturer = string_of(&f.manufacturer);
    let product = string_of(&f.product);
    let fallback = "Unknown USB device".to_owned();
    let name = device_name_exec(&manufacturer, &product, &fallback);
    Some(
        UsbDevice {
            busid: string_of(&f.busid),
            vendor_id: string_of(&f.vendor_id),
            product_id: string_of(&f.product_id),
            name,
            bound: false,
            attached: false,
            attached_port: None,
            metadata: UsbDeviceMetadata::named(manufacturer, product),
        },
    )
}

/// Parses the output of `usbip list -p -l`: each line that starts with
/// `busid=` and names a non-empty busid gives one device.
pub fn parse_usbip_list_machine(output: &str) -> (r: Vec<UsbDevice>)
    ensures
        devices_view(r@) == spec_parse_usbip_list_machine(output@),
{
    let text = chars_of(output);
    let all = lines_exec(&text);
    let ghost lv = all@.map_values(|x: Vec<char>| x@);
    let prefix = chars_of("busid=");
    let mut devices: Vec<UsbDevice> = Vec::new();
    assert(devices_view(devices@) =~= machine_devices(lv.take(0)));
    let mut i: usize = 0;
    while i < all.len()
        invariant
            0 <= i <= all@.len(),
            lv == all@.map_values(|x: Vec<char>| x@),
            lv == lines(output@),
            prefix@ == "busid="@,
            devices_view(devices@) == machine_devices(lv.take(i as int)),
        decreases all@.len() - i,
    {
        assert(lv.take(i + 1).drop_last() =~= lv.take(i as int));
        assert(lv.take(i + 1).last() == all@[i as int]@);
        let ghost before = devices@;
        if starts_with_exec(&all[i], &prefix) {
            match parse_machine_line(&all[i]) {
                Some(d) => {
                    devices.push(d);
                    assert(devices_view(devices@) =~= devices_view(before).push(d@));
                },
                None => {},
            }
        }
        i += 1;
    }
    assert(lv.take(all@.len() as int) =~= lv);
    devices
}

// ---------------------------------------------------------------------------
// `usbip list -l`: a `- busid <busid> (<vendor>:<product>)` line per device,
// followed by its description
// ---------------------------------------------------------------------------
/// A device started by a `- busid` header line.
pub open spec fn human_header_device(rest: Seq<char>) -> Option<DeviceView> {
    match split_once_char(rest, ' ') {
        None => None,
        Some((busid, ids)) => {
            let ids = trim(ids, TrimSet::Parens);
            let (vendor_id, product_id) = match split_once_char(ids, ':') {
                Some((vendor, product)) => (vendor, product),
                None => (seq![], seq![]),
            };
            Some(
                listed_device(busid, vendor_id, product_id, unknown_device_name(), empty_metadata()),
            )
        },
    }
}

/// The pending device after a description line: the line becomes its name,
/// and a `manufacturer : product` line also gives its names.
pub open spec fn described_device(d: DeviceView, line: Seq<char>) -> DeviceView {
    match split_once_seq(line, " : "@) {
        Some((manufacturer, product)) => DeviceView {
            name: line,
            metadata: MetadataView { manufacturer, product, ..d.metadata },
            ..d
        },
        None => DeviceView { name: line, ..d },
    }
}

/// The devices completed and the device pending after some lines.
pub open spec fn human_state(lines: Seq<Seq<char>>) -> (Seq<DeviceView>, Option<DeviceView>)
    decreases lines.len(),
{
    if lines.len() == 0 {
        (seq![], None)
    } else {
        let (done, pending) = human_state(lines.drop_last());
        let t = trim(lines.last(), TrimSet::Whitespace);
        match strip_prefix(t, "- busid "@) {
            Some(rest) => {
                let done = match pending {
                    Some(d) => done.push(d),
                    None => done,
                };
                (done, human_header_device(rest))
            },
            None => match pending {
                Some(d) => if t.len() > 0 && !starts_with(t, ":"@) {
                    (done, Some(described_device(d, t)))
                } else {
                    (done, pending)
                },
                None => (done, pending),
            },
        }
    }
}

/// The devices listed in the output of `usbip list -l`.
pub open spec fn spec_parse_usbip_list_human(output: Seq<char>) -> Seq<DeviceView> {
    let (done, pending) = human_state(lines(output));
    match pending {
        Some(d) => done.push(d),
        None => done,
    }
}

fn parse_human_header(rest: &Vec<char>) -> (r: Option<UsbDevice>)
    ensures
        match r {
            Some(d) => human_header_device(rest@) == Some(d@),
            None => human_header_device(rest@) is None,
        },
{
    match split_once_char_exec(rest, ' ') {
        None => None,
        Some((busid, ids)) => {
            let ids = trim_exec(&ids, TrimSet::Parens);
            let (vendor_id, product_id) = match split_once_char_exec(&ids, ':') {
                Some((vendor, product)) => (string_of(&vendor), string_of(&product)),
                None => (String::new(), String::new()),
            };
            Some(
                UsbDevice {
                    busid: string_of(&busid),
                    vendor_id,
                    product_id,
                    name: "Unknown USB device".to_owned(),
                    bound: false,
                    attached: false,
                    attached_port: None,
                    metadata: UsbDeviceMetadata::empty(),
                },
            )
        },
    }
}

fn describe_device(d: &mut UsbDevice, line: &Vec<char>, separator: &Vec<char>)
    requires
        separator@ == " : "@,
    ensures
        final(d)@ == described_device(old(d)@, line@),
{
    d.name = string_of(line);
    match split_once_seq_exec(line, separator) {
        Some((manufacturer, product)) => {
            d.metadata.manufacturer = string_of(&manufacturer);
            d.metadata.product = string_of(&product);
        },
        None => {},
    }
}

/// Parses the output of `usbip list -l`.
pub fn parse_usbip_list_human(output: &str) -> (r: Vec<UsbDevice>)
    ensures
        devices_view(r@) == spec_parse_usbip_list_human(output@),
{
    let text = chars_of(output);
    let all = lines_exec(&text);
    let ghost lv = all@.map_values(|x: Vec<char>| x@);
    let header = chars_of("- busid ");
    let colon = chars_of(":");
    let separator = chars_of(" : ");
    let mut devices: Vec<UsbDevice> = Vec::new();
    let mut pending: Option<UsbDevice> = None;
    assert(devices_view(devices@) =~= human_state(lv.take(0)).0);
    let mut i: usize = 0;
    while i < all.len()
        invariant
            0 <= i <= all@.len(),
            lv == all@.map_values(|x: Vec<char>| x@),
            lv == lines(output@),
            header@ == "- busid "@,
            colon@ == ":"@,
            separator@ == " : "@,
            devices_view(devices@) == human_state(lv.take(i as int)).0,
            opt_device_view(pending) == human_state(lv.take(i as int)).1,
        decreases all@.len() - i,
    {
        assert(lv.take(i + 1).drop_last() =~= lv.take(i as int));
        assert(lv.take(i + 1).last() == all@[i as int]@);
        let t = trim_exec(&all[i], TrimSet::Whitespace);
        match strip_prefix_exec(&t, &header) {
            Some(rest) => {
                match pending.take() {
                    Some(d) => {
                        let ghost before = devices@;
                        devices.push(d);
                        assert(devices_view(devices@) =~= devices_view(before).push(d@));
                    },
                    None => {},
                }
                pending = parse_human_header(&rest);
            },
            None => {
                if t.len() > 0 && !starts_with_exec(&t, &colon) {
                    match pending {
                        Some(ref mut d) => {
                            describe_device(d, &t, &separator);
                        },
                        None => {},
                    }
                }
            },
        }
        i += 1;
    }
    assert(lv.take(all@.len() as int) =~= lv);
    match pending {
        Some(d) => {
            let ghost before = devices@;
            devices.push(d);
            assert(devices_view(devices@) =~= devices_view(before).push(d@));
        },
        None => {},
    }
    devices
}

/// The model of an optional device.
pub open spec fn opt_device_view(d: Option<UsbDevice>) -> Option<DeviceView> {
    match d {
        Some(d) => Some(d@),
        None => None,
    }
}

// ---------------------------------------------------------------------------
// `usbip port`: a `Port NN:` line per local port, followed by the URL of the
// imported device
// ---------------------------------------------------------------------------
/// The port number of a `Port` line: the text before the first `:`, without
/// leading zeros, read as a `u16`, and 0 where it is not a number.
pub open spec fn port_number(rest: Seq<char>) -> u16 {
    let head = match find_char(rest, ':') {
        Some(i) => rest.take(i),
        None => rest,
    };
    match parse_u16(trim_start(head, TrimSet::Zero)) {
        Some(n) => n,
        None => 0,
    }
}

/// The current port and the attachments found after some lines: a line with
/// `usbip://` and a `/` is the remote busid (the text after the last `/`)
/// imported at the current port.
pub open spec fn port_state(lines: Seq<Seq<char>>) -> (Option<u16>, Seq<(u16, Seq<char>)>)
    decreases lines.len(),
{
    if lines.len() == 0 {
        (None, seq![])
    } else {
        let (current, found) = port_state(lines.drop_last());
        let t = trim(lines.last(), TrimSet::Whitespace);
        match strip_prefix(t, "Port "@) {
            Some(rest) => (Some(port_number(rest)), found),
            None => match rsplit_once_char(t, '/') {
                None => (current, found),
                Some((_, remote_busid)) => if contains_seq(t, "usbip://"@) {
                    match current {
                        Some(port) => (current, found.push((port, remote_busid))),
                        None => (current, found),
                    }
                } else {
                    (current, found)
                },
            },
        }
    }
}

/// The attachments listed in the output of `usbip port`.
pub open spec fn spec_parse_usbip_port(output: Seq<char>) -> Seq<(u16, Seq<char>)> {
    port_state(lines(output)).1
}

fn parse_port_number(rest: &Vec<char>) -> (n: u16)
    ensures
        n == port_number(rest@),
{
    let head = match find_char_exec(rest, ':') {
        Some(i) => {
            proof {
                lemma_find_char(rest@, ':');
            }
            let h = slice_chars(rest, 0, i);
            assert(h@ =~= rest@.take(i as int));
            h
        },
        None => slice_chars(rest, 0, rest.len()),
    };
    assert(rest@.subrange(0, rest@.len() as int) =~= rest@);
    let digits = trim_start_exec(&head, TrimSet::Zero);
    match parse_u16_exec(&digits) {
        Some(n) => n,
        None => 0,
    }
}

/// The devices `usbip list` reports: those of the machine-readable listing
/// where it lists any, else those of the human-readable one; `None` where the
/// machine-readable listing lists none and the human-readable one is not read
/// yet.
pub open spec fn spec_usbip_listing(machine_output: Seq<char>, human_output: Option<Seq<char>>) -> Option<
    Seq<DeviceView>,
> {
    let machine = spec_parse_usbip_list_machine(machine_output);
    if machine.len() > 0 {
        Some(machine)
    } else {
        match human_output {
            Some(h) => Some(spec_parse_usbip_list_human(h)),
            None => None,
        }
    }
}

/// The devices `usbip list` reports (see [`spec_usbip_listing`]): the caller
/// runs `usbip list -l` and asks again only where this returns `None`.
pub fn usbip_listing(machine_output: &str, human_output: Option<&str>) -> (r: Option<Vec<UsbDevice>>)
    ensures
        match r {
            Some(v) => spec_usbip_listing(machine_output@, opt_str(human_output)) == Some(devices_view(v@)),
            None => spec_usbip_listing(machine_output@, opt_str(human_output)) is None,
        },
{
    let machine = parse_usbip_list_machine(machine_output);
    if machine.len() > 0 {
        return Some(machine);
    }
    match human_output {
        Some(h) => Some(parse_usbip_list_human(h)),
        None => None,
    }
}

/// The model of an optional string argument.
pub open spec fn opt_str(o: Option<&str>) -> Option<Seq<char>> {
    match o {
        Some(s) => Some(s@),
        None => None,
    }
}

/// Parses the output of `usbip port`.
pub fn parse_usbip_port(output: &str) -> (r: Vec<Attachment>)
    ensures
        r@.map_values(|a: Attachment| a@) == spec_parse_usbip_port(output@),
{
    let text = chars_of(output);
    let all = lines_exec(&text);
    let ghost lv = all@.map_values(|x: Vec<char>| x@);
    let port_prefix = chars_of("Port ");
    let scheme = chars_of("usbip://");
    let mut attachments: Vec<Attachment> = Vec::new();
    let mut current: Option<u16> = None;
    assert(attachments@.map_values(|a: Attachment| a@) =~= port_state(lv.take(0)).1);
    let mut i: usize = 0;
    while i < all.len()
        invariant
            0 <= i <= all@.len(),
            lv == all@.map_values(|x: Vec<char>| x@),
            lv == lines(output@),
            port_prefix@ == "Port "@,
            scheme@ == "usbip://"@,
            attachments@.map_values(|a: Attachment| a@) == port_state(lv.take(i as int)).1,
            current == port_state(lv.take(i as int)).0,
        decreases all@.len() - i,
    {
        assert(lv.take(i + 1).drop_last() =~= lv.take(i as int));
        assert(lv.take(i + 1).last() == all@[i as int]@);
        let t = trim_exec(&all[i], TrimSet::Whitespace);
        match strip_prefix_exec(&t, &port_prefix) {
            Some(rest) => {
                current = Some(parse_port_number(&rest));
            },
            None => {
                match rsplit_once_char_exec(&t, '/') {
                    None => {},
                    Some((_, remote_busid)) => {
                        if contains_exec(&t, &scheme) {
                            match current {
                                Some(port) => {
                                    let a = Attachment { port, remote_busid: string_of(&remote_busid) };
                                    let ghost before = attachments@;
                                    attachments.push(a);
                                    assert(attachments@.map_values(|a: Attachment| a@)
                                        =~= before.map_values(|a: Attachment| a@).push(a@));
                                },
                                None => {},
                            }
                        }
                    },
                }
            },
        }
        i += 1;
    }
    assert(lv.take(all@.len() as int) =~= lv);
    attachments
}

// ---------------------------------------------------------------------------
// sysfs details
// ---------------------------------------------------------------------------
/// The contents of a device's sysfs attribute files, `None` where a file
/// could not be read, and the name of the driver its `driver` link points to.
#[derive(Debug, Clone)]
pub struct SysfsAttributes {
    pub manufacturer: Option<String>,
    pub product: Option<String>,
    pub serial: Option<String>,
    pub speed: Option<String>,
    pub version: Option<String>,
    pub bcd_device: Option<String>,
    pub busnum: Option<String>,
    pub devnum: Option<String>,
    pub device_class: Option<String>,
    pub device_subclass: Option<String>,
    pub device_protocol: Option<String>,
    pub driver: Option<String>,
}

/// The value of an attribute file: its trimmed contents, where not empty.
pub open spec fn spec_sysfs_value(raw: Option<Seq<char>>) -> Option<Seq<char>> {
    match raw {
        Some(contents) => {
            let t = trim(contents, TrimSet::Whitespace);
            if t.len() > 0 {
                Some(t)
            } else {
                None
            }
        },
        None => None,
    }
}

/// The value of an attribute file: its trimmed contents, where not empty.
pub fn sysfs_value(raw: Option<String>) -> (r: Option<String>)
    ensures
        opt_view(r) == spec_sysfs_value(opt_view(raw)),
{
    match raw {
        Some(contents) => {
            let v = chars_of(contents.as_str());
            let t = trim_exec(&v, TrimSet::Whitespace);
            if t.len() > 0 {
                Some(string_of(&t))
            } else {
                None
            }
        },
        None => None,
    }
}

/// `d` with the details read from sysfs: a manufacturer or product found there
/// replaces the listed one, the other details are those found, and the name is
/// rebuilt from manufacturer and product, keeping the old name where both are
/// empty.
pub open spec fn enriched_device(d: DeviceView, a: SysfsAttributes) -> DeviceView {
    let manufacturer = match spec_sysfs_value(opt_view(a.manufacturer)) {
        Some(v) => v,
        None => d.metadata.manufacturer,
    };
    let product = match spec_sysfs_value(opt_view(a.product)) {
        Some(v) => v,
        None => d.metadata.product,
    };
    DeviceView {
        name: device_name(manufacturer, product, d.name),
        metadata: MetadataView {
            manufacturer,
            product,
            serial: spec_sysfs_value(opt_view(a.serial)),
            speed: spec_sysfs_value(opt_view(a.speed)),
            usb_version: spec_sysfs_value(opt_view(a.version)),
            device_version: spec_sysfs_value(opt_view(a.bcd_device)),
            busnum: spec_sysfs_value(opt_view(a.busnum)),
            devnum: spec_sysfs_value(opt_view(a.devnum)),
            device_class: spec_sysfs_value(opt_view(a.device_class)),
            device_subclass: spec_sysfs_value(opt_view(a.device_subclass)),
            device_protocol: spec_sysfs_value(opt_view(a.device_protocol)),
            driver: opt_view(a.driver),
        },
        ..d
    }
}

/// Fills in a device's details from its sysfs attributes.
pub fn enrich_from_sysfs(device: &mut UsbDevice, attributes: SysfsAttributes)
    ensures
        final(device)@ == enriched_device(old(device)@, attributes),
        final(device)@.metadata.serial == spec_sysfs_value(opt_view(attributes.serial)),
        final(device)@.metadata.speed == spec_sysfs_value(opt_view(attributes.speed)),
        final(device)@.metadata.usb_version == spec_sysfs_value(opt_view(attributes.version)),
        final(device)@.metadata.device_version == spec_sysfs_value(opt_view(attributes.bcd_device)),
        final(device)@.metadata.busnum == spec_sysfs_value(opt_view(attributes.busnum)),
        final(device)@.metadata.devnum == spec_sysfs_value(opt_view(attributes.devnum)),
        final(device)@.metadata.device_class == spec_sysfs_value(opt_view(attributes.device_class)),
        final(device)@.metadata.device_subclass == spec_sysfs_value(
            opt_view(attributes.device_subclass),
        ),
        final(device)@.metadata.device_protocol == spec_sysfs_value(
            opt_view(attributes.device_protocol),
        ),
        final(device)@.metadata.driver == opt_view(attributes.driver),
{
    let ghost a = attributes;
    if let Some(manufacturer) = sysfs_value(attributes.manufacturer) {
        device.metadata.manufacturer = manufacturer;
    }
    if let Some(product) = sysfs_value(attributes.product) {
        device.metadata.product = product;
    }
    device.metadata.serial = sysfs_value(attributes.serial);
    device.metadata.speed = sysfs_value(attributes.speed);
    device.metadata.usb_version = sysfs_value(attributes.version);
    device.metadata.device_version = sysfs_value(attributes.bcd_device);
    device.metadata.busnum = sysfs_value(attributes.busnum);
    device.metadata.devnum = sysfs_value(attributes.devnum);
    device.metadata.device_class = sysfs_value(attributes.device_class);
    device.metadata.device_subclass = sysfs_value(attributes.device_subclass);
    device.metadata.device_protocol = sysfs_value(attributes.device_protocol);
    device.metadata.driver = attributes.driver;
    device.name = device_name_exec(&device.metadata.manufacturer, &device.metadata.product, &device.name);
}

/// The value of an attribute file is its contents without surrounding
/// whitespace, and none where that leaves nothing.
pub proof fn law_sysfs_value(raw: Option<Seq<char>>)
    ensures
        match raw {
            Some(contents) => if trim(contents, TrimSet::Whitespace).len() > 0 {
                spec_sysfs_value(raw) == Some(trim(contents, TrimSet::Whitespace))
            } else {
                spec_sysfs_value(raw) is None
            },
            None => spec_sysfs_value(raw) is None,
        },
{
}

/// Each detail comes from its own attribute file: the serial from `serial`,
/// the speed from `speed`, the USB version from `version`, the device version
/// from `bcdDevice`, the bus and device numbers from `busnum` and `devnum`,
/// the class, subclass and protocol from `bDeviceClass`, `bDeviceSubClass`
/// and `bDeviceProtocol`, and the driver from the `driver` link. A
/// manufacturer or product found in sysfs replaces the listed one, and the
/// name is rebuilt from them; busid, ids and flags stay as they were.
pub proof fn law_enrich_reads_each_attribute(d: DeviceView, a: SysfsAttributes)
    ensures
        ({
            let r = enriched_device(d, a);
            let m = r.metadata;
            &&& m.serial == spec_sysfs_value(opt_view(a.serial))
            &&& m.speed == spec_sysfs_value(opt_view(a.speed))
            &&& m.usb_version == spec_sysfs_value(opt_view(a.version))
            &&& m.device_version == spec_sysfs_value(opt_view(a.bcd_device))
            &&& m.busnum == spec_sysfs_value(opt_view(a.busnum))
            &&& m.devnum == spec_sysfs_value(opt_view(a.devnum))
            &&& m.device_class == spec_sysfs_value(opt_view(a.device_class))
            &&& m.device_subclass == spec_sysfs_value(opt_view(a.device_subclass))
            &&& m.device_protocol == spec_sysfs_value(opt_view(a.device_protocol))
            &&& m.driver == opt_view(a.driver)
            &&& m.manufacturer == (match spec_sysfs_value(opt_view(a.manufacturer)) {
                Some(v) => v,
                None => d.metadata.manufacturer,
            })
            &&& m.product == (match spec_sysfs_value(opt_view(a.product)) {
                Some(v) => v,
                None => d.metadata.product,
            })
            &&& r.name == device_name(m.manufacturer, m.product, d.name)
            &&& r.busid == d.busid && r.vendor_id == d.vendor_id && r.product_id == d.product_id
            &&& r.bound == d.bound && r.attached == d.attached && r.attached_port == d.attached_port
        }),
{
}

/// Whether a device's driver is `usbip-host`, that is, whether it is bound.
pub fn is_usbip_host_driver(driver: &Option<String>) -> (r: bool)
    ensures
        r == (opt_view(*driver) == Some("usbip-host"@)),
{
    match driver {
        Some(name) => str_eq(name.as_str(), "usbip-host"),
        None => false,
    }
}

// ---------------------------------------------------------------------------
// Laws
// ---------------------------------------------------------------------------
/// A device as `usbip list` reports it: unbound, not attached, named.
pub open spec fn is_listed_device(d: DeviceView) -> bool {
    &&& !d.bound
    &&& !d.attached
    &&& d.attached_port is None
    &&& d.name.len() > 0
}

proof fn lemma_machine_devices_listed(ls: Seq<Seq<char>>)
    ensures
        forall|i: int|
            0 <= i < machine_devices(ls).len() ==> is_listed_device(#[trigger] machine_devices(ls)[i])
                && machine_devices(ls)[i].busid.len() > 0,
    decreases ls.len(),
{
    reveal_strlit("Unknown USB device");
    if ls.len() > 0 {
        lemma_machine_devices_listed(ls.drop_last());
    }
}

/// Every device read from `usbip list -p -l` output is unbound, not
/// attached, and has a non-empty busid and a non-empty name.
pub proof fn law_machine_devices_listed(output: Seq<char>)
    ensures
        forall|i: int|
            0 <= i < spec_parse_usbip_list_machine(output).len() ==> is_listed_device(
                #[trigger] spec_parse_usbip_list_machine(output)[i],
            ) && spec_parse_usbip_list_machine(output)[i].busid.len() > 0,
{
    lemma_machine_devices_listed(lines(output));
}

/// The device a line of `usbip list -p -l` output gives: a line that starts
/// with `busid=` and names a non-empty busid gives one, any other line none.
pub open spec fn machine_line_device(line: Seq<char>) -> Option<DeviceView> {
    if starts_with(line, "busid="@) {
        machine_device(line)
    } else {
        None
    }
}

proof fn lemma_machine_devices_filter_map(ls: Seq<Seq<char>>)
    ensures
        machine_devices(ls) == ls.filter_map(|l: Seq<char>| machine_line_device(l)),
    decreases ls.len(),
{
    if ls.len() > 0 {
        lemma_machine_devices_filter_map(ls.drop_last());
        let f = |l: Seq<char>| machine_line_device(l);
        match machine_line_device(ls.last()) {
            Some(d) => {
                assert(machine_devices(ls) =~= ls.drop_last().filter_map(f) + seq![d]);
            },
            None => {},
        }
    }
}

/// `usbip list -p -l` output gives, in order, the device of each line that
/// starts with `busid=` and names a non-empty busid, and nothing for the other
/// lines.
pub proof fn law_machine_listing(output: Seq<char>)
    ensures
        spec_parse_usbip_list_machine(output) == lines(output).filter_map(
            |l: Seq<char>| machine_line_device(l),
        ),
{
    lemma_machine_devices_filter_map(lines(output));
}

/// The value of the last `key=value` part whose key is `key`.
pub open spec fn last_field(parts: Seq<Seq<char>>, key: Seq<char>) -> Option<Seq<char>>
    decreases parts.len(),
{
    if parts.len() == 0 {
        None
    } else {
        match split_once_char(parts.last(), '=') {
            Some((k, v)) => if k == key {
                Some(v)
            } else {
                last_field(parts.drop_last(), key)
            },
            None => last_field(parts.drop_last(), key),
        }
    }
}

/// The vendor and product ids of the last `usbid` part whose value holds a
/// `:` (the text before and after its first `:`).
pub open spec fn last_usbid(parts: Seq<Seq<char>>) -> Option<(Seq<char>, Seq<char>)>
    decreases parts.len(),
{
    if parts.len() == 0 {
        None
    } else {
        match split_once_char(parts.last(), '=') {
            Some((k, v)) => if k == "usbid"@ && split_once_char(v, ':') is Some {
                split_once_char(v, ':')
            } else {
                last_usbid(parts.drop_last())
            },
            None => last_usbid(parts.drop_last()),
        }
    }
}

/// A value, or nothing where it is missing.
pub open spec fn or_empty(v: Option<Seq<char>>) -> Seq<char> {
    match v {
        Some(v) => v,
        None => seq![],
    }
}

/// Each field of a machine-readable line comes from the last part that sets
/// it: `busid`, `product` and `manufacturer` from the last part with that
/// key, the ids from the last `usbid` holding a `:`; a missing field is empty.
pub proof fn law_machine_fields(parts: Seq<Seq<char>>)
    ensures
        machine_fields(parts).busid == or_empty(last_field(parts, "busid"@)),
        machine_fields(parts).product == or_empty(last_field(parts, "product"@)),
        machine_fields(parts).manufacturer == or_empty(last_field(parts, "manufacturer"@)),
        machine_fields(parts).vendor_id == (match last_usbid(parts) {
            Some((vendor, _)) => vendor,
            None => seq![],
        }),
        machine_fields(parts).product_id == (match last_usbid(parts) {
            Some((_, product)) => product,
            None => seq![],
        }),
    decreases parts.len(),
{
    reveal_strlit("busid");
    reveal_strlit("usbid");
    reveal_strlit("product");
    reveal_strlit("manufacturer");
    assert("busid"@.len() == 5 && "usbid"@.len() == 5 && "product"@.len() == 7
        && "manufacturer"@.len() == 12);
    assert("busid"@ != "usbid"@) by {
        assert("busid"@[0] != "usbid"@[0]);
    }
    if parts.len() > 0 {
        law_machine_fields(parts.drop_last());
    }
}

proof fn lemma_human_state_listed(ls: Seq<Seq<char>>)
    ensures
        forall|i: int|
            0 <= i < human_state(ls).0.len() ==> is_listed_device(#[trigger] human_state(ls).0[i]),
        human_state(ls).1 matches Some(d) ==> is_listed_device(d),
    decreases ls.len(),
{
    reveal_strlit("Unknown USB device");
    if ls.len() > 0 {
        lemma_human_state_listed(ls.drop_last());
    }
}

/// Every device read from `usbip list -l` output is unbound, not attached,
/// and has a non-empty name.
pub proof fn law_human_devices_listed(output: Seq<char>)
    ensures
        forall|i: int|
            0 <= i < spec_parse_usbip_list_human(output).len() ==> is_listed_device(
                #[trigger] spec_parse_usbip_list_human(output)[i],
            ),
{
    lemma_human_state_listed(lines(output));
}

/// The rest of a `- busid ` header line of `usbip list -l` output (once
/// trimmed), or `None` for any other line.
pub open spec fn header_rest(line: Seq<char>) -> Option<Seq<char>> {
    strip_prefix(trim(line, TrimSet::Whitespace), "- busid "@)
}

/// A device after one more line that is no header: a non-empty line that
/// does not start with `:` describes it.
pub open spec fn describe_step(d: DeviceView, line: Seq<char>) -> DeviceView {
    let t = trim(line, TrimSet::Whitespace);
    if t.len() > 0 && !starts_with(t, ":"@) {
        described_device(d, t)
    } else {
        d
    }
}

/// The device `d` after the lines `ls` up to the next header line.
pub open spec fn describe_until_header(d: DeviceView, ls: Seq<Seq<char>>) -> DeviceView
    decreases ls.len(),
{
    if ls.len() == 0 {
        d
    } else if header_rest(ls[0]) is Some {
        d
    } else {
        describe_until_header(describe_step(d, ls[0]), ls.drop_first())
    }
}

/// Some line of `ls` is a header.
pub open spec fn has_header(ls: Seq<Seq<char>>) -> bool {
    exists|i: int| 0 <= i < ls.len() && #[trigger] header_rest(ls[i]) is Some
}

/// The device that line `j` of `ls` starts: a header whose rest holds a
/// space gives its device, described by the lines up to the next header.
pub open spec fn human_device_at(ls: Seq<Seq<char>>, j: int) -> Option<DeviceView> {
    match header_rest(ls[j]) {
        Some(rest) => match human_header_device(rest) {
            Some(h) => Some(describe_until_header(h, ls.skip(j + 1))),
            None => None,
        },
        None => None,
    }
}

/// The position of the last header line of `ls`.
pub open spec fn last_header(ls: Seq<Seq<char>>) -> Option<int>
    decreases ls.len(),
{
    if ls.len() == 0 {
        None
    } else if header_rest(ls.last()) is Some {
        Some(ls.len() - 1)
    } else {
        last_header(ls.drop_last())
    }
}

proof fn lemma_describe_push(d: DeviceView, s: Seq<Seq<char>>, x: Seq<char>)
    ensures
        describe_until_header(d, s.push(x)) == (if has_header(s) || header_rest(x) is Some {
            describe_until_header(d, s)
        } else {
            describe_step(describe_until_header(d, s), x)
        }),
    decreases s.len(),
{
    if s.len() == 0 {
        assert(s.push(x) =~= seq![x]);
        assert(seq![x].drop_first() =~= Seq::<Seq<char>>::empty());
        assert(!has_header(s));
        if header_rest(x) is None {
            assert(describe_until_header(describe_step(d, x), Seq::<Seq<char>>::empty()) == describe_step(d, x));
        }
    } else {
        assert(s.push(x)[0] == s[0]);
        if header_rest(s[0]) is Some {
            assert(has_header(s));
        } else {
            let t = s.drop_first();
            assert(s.push(x).drop_first() =~= t.push(x));
            lemma_describe_push(describe_step(d, s[0]), t, x);
            if has_header(s) {
                let i = choose|i: int| 0 <= i < s.len() && #[trigger] header_rest(s[i]) is Some;
                assert(i > 0);
                assert(t[i - 1] == s[i]);
                assert(has_header(t));
            }
            if has_header(t) {
                let i = choose|i: int| 0 <= i < t.len() && #[trigger] header_rest(t[i]) is Some;
                assert(s[i + 1] == t[i]);
                assert(has_header(s));
            }
        }
    }
}

proof fn lemma_filter_map_congruent(n: nat, f: spec_fn(int) -> Option<DeviceView>, g: spec_fn(int) -> Option<DeviceView>)
    requires
        forall|j: int| 0 <= j < n ==> #[trigger] f(j) == g(j),
    ensures
        Seq::new(n, |j: int| j).filter_map(f) == Seq::new(n, |j: int| j).filter_map(g),
    decreases n,
{
    let idx = Seq::new(n, |j: int| j);
    if n > 0 {
        assert(idx.drop_last() =~= Seq::new((n - 1) as nat, |j: int| j));
        assert(idx.last() == n - 1);
        lemma_filter_map_congruent((n - 1) as nat, f, g);
    }
}

proof fn lemma_filter_map_trailing_none(m: nat, n: nat, f: spec_fn(int) -> Option<DeviceView>)
    requires
        m <= n,
        forall|j: int| m <= j < n ==> #[trigger] f(j) is None,
    ensures
        Seq::new(n, |j: int| j).filter_map(f) == Seq::new(m, |j: int| j).filter_map(f),
    decreases n,
{
    if n > m {
        let idx = Seq::new(n, |j: int| j);
        assert(idx.drop_last() =~= Seq::new((n - 1) as nat, |j: int| j));
        assert(idx.last() == n - 1);
        lemma_filter_map_trailing_none(m, (n - 1) as nat, f);
    }
}

proof fn lemma_human_state_at(ls: Seq<Seq<char>>)
    ensures
        match last_header(ls) {
            None => human_state(ls) == (Seq::<DeviceView>::empty(), None::<DeviceView>) && forall|i: int|
                0 <= i < ls.len() ==> #[trigger] header_rest(ls[i]) is None,
            Some(l) => {
                &&& 0 <= l < ls.len()
                &&& header_rest(ls[l]) is Some
                &&& forall|i: int| l < i < ls.len() ==> #[trigger] header_rest(ls[i]) is None
                &&& human_state(ls).0 == Seq::new(l as nat, |j: int| j).filter_map(
                    |j: int| human_device_at(ls, j),
                )
                &&& human_state(ls).1 == human_device_at(ls, l)
            },
        },
    decreases ls.len(),
{
    if ls.len() == 0 {
        return;
    }
    let p = ls.drop_last();
    let x = ls.last();
    let n = ls.len();
    lemma_human_state_at(p);
    let f = |j: int| human_device_at(ls, j);
    let g = |j: int| human_device_at(p, j);
    assert forall|j: int| 0 <= j < p.len() implies ls[j] == p[j] by {}
    assert forall|j: int| 0 <= j < p.len() implies #[trigger] ls.skip(j + 1) =~= p.skip(j + 1).push(x) by {}
    assert(trim(x, TrimSet::Whitespace) == trim(ls.last(), TrimSet::Whitespace));
    match last_header(p) {
        None => {
            assert forall|j: int| 0 <= j < p.len() implies #[trigger] f(j) is None by {
                assert(header_rest(p[j]) is None);
            }
            if header_rest(x) is Some {
                lemma_filter_map_trailing_none(0, (n - 1) as nat, f);
                assert(Seq::new(0, |j: int| j) =~= Seq::<int>::empty());
                assert(ls.skip(n as int) =~= Seq::<Seq<char>>::empty());
            }
        },
        Some(l) => {
            assert forall|j: int| 0 <= j < l implies #[trigger] f(j) == g(j) by {
                let s = p.skip(j + 1);
                assert(s[l - j - 1] == p[l]);
                assert(has_header(s));
                match header_rest(p[j]) {
                    Some(rest) => match human_header_device(rest) {
                        Some(h) => lemma_describe_push(h, s, x),
                        None => {},
                    },
                    None => {},
                }
            }
            lemma_filter_map_congruent(l as nat, f, g);
            let s = p.skip(l + 1);
            assert(!has_header(s)) by {
                if has_header(s) {
                    let i = choose|i: int| 0 <= i < s.len() && #[trigger] header_rest(s[i]) is Some;
                    assert(s[i] == p[l + 1 + i]);
                }
            }
            match header_rest(p[l]) {
                Some(rest) => match human_header_device(rest) {
                    Some(h) => lemma_describe_push(h, s, x),
                    None => {},
                },
                None => {},
            }
            if header_rest(x) is Some {
                assert forall|j: int| l + 1 <= j < n - 1 implies #[trigger] f(j) is None by {
                    assert(header_rest(p[j]) is None);
                }
                lemma_filter_map_trailing_none((l + 1) as nat, (n - 1) as nat, f);
                let idx = Seq::new((l + 1) as nat, |j: int| j);
                assert(idx.drop_last() =~= Seq::new(l as nat, |j: int| j));
                assert(idx.last() == l);
                assert(ls.skip(n as int) =~= Seq::<Seq<char>>::empty());
                match f(l) {
                    Some(d) => {
                        assert(idx.filter_map(f) == idx.drop_last().filter_map(f) + seq![d]);
                        assert(human_state(ls).0 =~= idx.filter_map(f));
                    },
                    None => {},
                }
            }
        },
    }
}

/// `usbip list -l` output gives, in order, one device for each header line
/// (`- busid <busid> <ids>`, once trimmed) whose rest holds a space: its busid
/// is the text before that space, its ids come from the rest (see
/// [`human_header_device`]), and the lines up to the next header describe it
/// (see [`describe_until_header`]); other lines start no device.
pub proof fn law_human_listing(output: Seq<char>)
    ensures
        spec_parse_usbip_list_human(output) == Seq::new(lines(output).len(), |j: int| j).filter_map(
            |j: int| human_device_at(lines(output), j),
        ),
{
    let ls = lines(output);
    let n = ls.len();
    let f = |j: int| human_device_at(ls, j);
    lemma_human_state_at(ls);
    match last_header(ls) {
        None => {
            assert forall|j: int| 0 <= j < n implies #[trigger] f(j) is None by {
                assert(header_rest(ls[j]) is None);
            }
            lemma_filter_map_trailing_none(0, n, f);
            assert(Seq::new(0, |j: int| j) =~= Seq::<int>::empty());
        },
        Some(l) => {
            assert forall|j: int| l + 1 <= j < n implies #[trigger] f(j) is None by {
                assert(header_rest(ls[j]) is None);
            }
            lemma_filter_map_trailing_none((l + 1) as nat, n, f);
            let idx = Seq::new((l + 1) as nat, |j: int| j);
            assert(idx.drop_last() =~= Seq::new(l as nat, |j: int| j));
            assert(idx.last() == l);
            match f(l) {
                Some(d) => {
                    assert(idx.filter_map(f) == idx.drop_last().filter_map(f) + seq![d]);
                    assert(spec_parse_usbip_list_human(output) =~= idx.filter_map(f));
                },
                None => {},
            }
        },
    }
}

/// `s` holds no `/`.
pub open spec fn has_no_slash(s: Seq<char>) -> bool {
    forall|j: int| 0 <= j < s.len() ==> s[j] != '/'
}

proof fn lemma_port_state_busids(ls: Seq<Seq<char>>)
    ensures
        forall|i: int|
            0 <= i < port_state(ls).1.len() ==> has_no_slash(#[trigger] port_state(ls).1[i].1),
    decreases ls.len(),
{
    if ls.len() > 0 {
        lemma_port_state_busids(ls.drop_last());
        let t = trim(ls.last(), TrimSet::Whitespace);
        crate::text::lemma_rfind_char(t, '/');
        match crate::text::rfind_char(t, '/') {
            Some(k) => {
                let b = t.skip(k + 1);
                assert(has_no_slash(b)) by {
                    assert forall|j: int| 0 <= j < b.len() implies b[j] != '/' by {
                        assert(b[j] == t[k + 1 + j]);
                    }
                }
            },
            None => {},
        }
        let prev = port_state(ls.drop_last()).1;
        let now = port_state(ls).1;
        assert(now == prev || (now.len() == prev.len() + 1 && now.drop_last() == prev));
        assert forall|i: int| 0 <= i < now.len() implies has_no_slash(#[trigger] now[i].1) by {
            if i < prev.len() {
                if now != prev {
                    assert(now[i] == now.drop_last()[i]);
                }
            }
        }
    }
}

/// The port of the most recent `Port` line among `ls`.
pub open spec fn last_port(ls: Seq<Seq<char>>) -> Option<u16>
    decreases ls.len(),
{
    if ls.len() == 0 {
        None
    } else {
        match strip_prefix(trim(ls.last(), TrimSet::Whitespace), "Port "@) {
            Some(rest) => Some(port_number(rest)),
            None => last_port(ls.drop_last()),
        }
    }
}

/// The remote busid of a line that is no `Port` line and holds `usbip://`
/// and a `/`: the text after its last `/`.
pub open spec fn attachment_busid(line: Seq<char>) -> Option<Seq<char>> {
    let t = trim(line, TrimSet::Whitespace);
    if strip_prefix(t, "Port "@) is Some {
        None
    } else {
        match rsplit_once_char(t, '/') {
            Some((_, remote_busid)) => if contains_seq(t, "usbip://"@) {
                Some(remote_busid)
            } else {
                None
            },
            None => None,
        }
    }
}

/// The attachment line `j` of `ls` gives: its remote busid at the port of the
/// most recent `Port` line before it, where there is one.
pub open spec fn attachment_at(ls: Seq<Seq<char>>, j: int) -> Option<(u16, Seq<char>)> {
    match (attachment_busid(ls[j]), last_port(ls.take(j))) {
        (Some(remote_busid), Some(port)) => Some((port, remote_busid)),
        _ => None,
    }
}

proof fn lemma_port_state_prefix(ls: Seq<Seq<char>>, k: int)
    requires
        0 <= k <= ls.len(),
    ensures
        port_state(ls.take(k)).0 == last_port(ls.take(k)),
        port_state(ls.take(k)).1 == Seq::new(k as nat, |j: int| j).filter_map(
            |j: int| attachment_at(ls, j),
        ),
    decreases k,
{
    let f = |j: int| attachment_at(ls, j);
    if k == 0 {
        assert(Seq::new(0, |j: int| j) =~= Seq::<int>::empty());
    } else {
        lemma_port_state_prefix(ls, k - 1);
        let p = ls.take(k);
        assert(p.drop_last() =~= ls.take(k - 1));
        assert(p.last() == ls[k - 1]);
        let idx = Seq::new(k as nat, |j: int| j);
        assert(idx.drop_last() =~= Seq::new((k - 1) as nat, |j: int| j));
        assert(idx.last() == k - 1);
        match attachment_at(ls, k - 1) {
            Some(a) => {
                assert(idx.filter_map(f) == idx.drop_last().filter_map(f) + seq![a]);
                assert(port_state(p).1 =~= idx.filter_map(f));
            },
            None => {
                assert(idx.filter_map(f) == idx.drop_last().filter_map(f));
            },
        }
    }
}

/// `usbip port` output gives, in order, one attachment for each line that
/// holds `usbip://` and a `/` and comes after some `Port` line: its remote
/// busid is the text after the line's last `/`, and its port is the number of
/// the most recent `Port` line; other lines give nothing.
pub proof fn law_port_listing(output: Seq<char>)
    ensures
        spec_parse_usbip_port(output) == Seq::new(lines(output).len(), |j: int| j).filter_map(
            |j: int| attachment_at(lines(output), j),
        ),
{
    let ls = lines(output);
    lemma_port_state_prefix(ls, ls.len() as int);
    assert(ls.take(ls.len() as int) =~= ls);
}

/// The remote busid of every attachment read from `usbip port` output holds
/// no `/`: it is the text after the last `/` of its `usbip://` URL.
pub proof fn law_port_busids_have_no_slash(output: Seq<char>)
    ensures
        forall|i: int|
            0 <= i < spec_parse_usbip_port(output).len() ==> has_no_slash(
                #[trigger] spec_parse_usbip_port(output)[i].1,
            ),
{
    lemma_port_state_busids(lines(output));
}

} // verus!
