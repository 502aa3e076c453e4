//! USB devices as the server reports them, and the attachments of this client.
use vstd::prelude::*;

verus! {

/// The characters of an optional string.
pub open spec fn opt_view(o: Option<String>) -> Option<Seq<char>> {
    match o {
        Some(s) => Some(s@),
        None => None,
    }
}

/// Details of a device read from sysfs and from `usbip list`.
#[derive(Debug, Clone)]
pub struct UsbDeviceMetadata {
    pub manufacturer: String,
    pub product: String,
    pub serial: Option<String>,
    pub speed: Option<String>,
    pub usb_version: Option<String>,
    pub device_version: Option<String>,
    pub busnum: Option<String>,
    pub devnum: Option<String>,
    pub device_class: Option<String>,
    pub device_subclass: Option<String>,
    pub device_protocol: Option<String>,
    pub driver: Option<String>,
}

/// The model of [`UsbDeviceMetadata`].
pub struct MetadataView {
    pub manufacturer: Seq<char>,
    pub product: Seq<char>,
    pub serial: Option<Seq<char>>,
    pub speed: Option<Seq<char>>,
    pub usb_version: Option<Seq<char>>,
    pub device_version: Option<Seq<char>>,
    pub busnum: Option<Seq<char>>,
    pub devnum: Option<Seq<char>>,
    pub device_class: Option<Seq<char>>,
    pub device_subclass: Option<Seq<char>>,
    pub device_protocol: Option<Seq<char>>,
    pub driver: Option<Seq<char>>,
}

impl View for UsbDeviceMetadata {
    type V = MetadataView;

    open spec fn view(&self) -> MetadataView {
        MetadataView {
            manufacturer: self.manufacturer@,
            product: self.product@,
            serial: opt_view(self.serial),
            speed: opt_view(self.speed),
            usb_version: opt_view(self.usb_version),
            device_version: opt_view(self.device_version),
            busnum: opt_view(self.busnum),
            devnum: opt_view(self.devnum),
            device_class: opt_view(self.device_class),
            device_subclass: opt_view(self.device_subclass),
            device_protocol: opt_view(self.device_protocol),
            driver: opt_view(self.driver),
        }
    }
}

/// Metadata with empty names and no details.
pub open spec fn empty_metadata() -> MetadataView {
    MetadataView {
        manufacturer: seq![],
        product: seq![],
        serial: None,
        speed: None,
        usb_version: None,
        device_version: None,
        busnum: None,
        devnum: None,
        device_class: None,
        device_subclass: None,
        device_protocol: None,
        driver: None,
    }
}

/// Metadata with the given names and no details.
pub open spec fn named_metadata(manufacturer: Seq<char>, product: Seq<char>) -> MetadataView {
    MetadataView { manufacturer, product, ..empty_metadata() }
}

impl UsbDeviceMetadata {
    /// Metadata with empty names and no details (`Default::default`).
    pub fn empty() -> (m: Self)
        ensures
            m@ == empty_metadata(),
    {
        UsbDeviceMetadata {
            manufacturer: String::new(),
            product: String::new(),
            serial: None,
            speed: None,
            usb_version: None,
            device_version: None,
            busnum: None,
            devnum: None,
            device_class: None,
            device_subclass: None,
            device_protocol: None,
            driver: None,
        }
    }

    /// Metadata with the given names and no details.
    pub fn named(manufacturer: String, product: String) -> (m: Self)
        ensures
            m@ == named_metadata(manufacturer@, product@),
    {
        UsbDeviceMetadata { manufacturer, product, ..Self::empty() }
    }
}

impl Default for UsbDeviceMetadata {
    fn default() -> (m: Self)
        ensures
            m@ == empty_metadata(),
    {
        Self::empty()
    }
}

/// A USB device exported by a rusbee server.
#[derive(Debug, Clone)]
pub struct UsbDevice {
    pub busid: String,
    pub vendor_id: String,
    pub product_id: String,
    pub name: String,
    pub bound: bool,
    pub attached: bool,
    pub attached_port: Option<u16>,
    pub metadata: UsbDeviceMetadata,
}

/// The model of [`UsbDevice`].
pub struct DeviceView {
    pub busid: Seq<char>,
    pub vendor_id: Seq<char>,
    pub product_id: Seq<char>,
    pub name: Seq<char>,
    pub bound: bool,
    pub attached: bool,
    pub attached_port: Option<u16>,
    pub metadata: MetadataView,
}

impl View for UsbDevice {
    type V = DeviceView;

    open spec fn view(&self) -> DeviceView {
        DeviceView {
            busid: self.busid@,
            vendor_id: self.vendor_id@,
            product_id: self.product_id@,
            name: self.name@,
            bound: self.bound,
            attached: self.attached,
            attached_port: self.attached_port,
            metadata: self.metadata@,
        }
    }
}

/// The models of a list of devices.
pub open spec fn devices_view(v: Seq<UsbDevice>) -> Seq<DeviceView> {
    v.map_values(|d: UsbDevice| d@)
}

/// A local usbip port that imports a remote device.
#[derive(Debug, Clone)]
pub struct Attachment {
    pub port: u16,
    pub remote_busid: String,
}

impl View for Attachment {
    type V = (u16, Seq<char>);

    open spec fn view(&self) -> (u16, Seq<char>) {
        (self.port, self.remote_busid@)
    }
}

/// The port of the last attachment in `attachments` that imports `busid`.
pub open spec fn attached_port_of(attachments: Seq<Attachment>, busid: Seq<char>) -> Option<u16>
    decreases attachments.len(),
{
    if attachments.len() == 0 {
        None
    } else if attachments.last().remote_busid@ == busid {
        Some(attachments.last().port)
    } else {
        attached_port_of(attachments.drop_last(), busid)
    }
}

/// `d` with its attachment state set from `port`.
pub open spec fn with_attachment(d: DeviceView, port: Option<u16>) -> DeviceView {
    DeviceView { attached_port: port, attached: port is Some, ..d }
}

/// The port of the last attachment that imports `busid`.
fn find_attached_port(attachments: &[Attachment], busid: &String) -> (r: Option<u16>)
    ensures
        r == attached_port_of(attachments@, busid@),
{
    let mut i = attachments.len();
    assert(attachments@.take(i as int) =~= attachments@);
    while i > 0
        invariant
            0 <= i <= attachments@.len(),
            attached_port_of(attachments@, busid@) == attached_port_of(
                attachments@.take(i as int),
                busid@,
            ),
        decreases i,
    {
        let ghost prefix = attachments@.take(i as int);
        assert(prefix.drop_last() =~= attachments@.take(i - 1));
        if attachments[i - 1].remote_busid == *busid {
            return Some(attachments[i - 1].port);
        }
        i -= 1;
    }
    assert(attachments@.take(0) =~= Seq::<Attachment>::empty());
    None
}

/// Marks each device as attached, with its local port, when an attachment
/// imports its busid; a device that no attachment imports is marked as not
/// attached. Where several attachments import one busid, the last one counts.
pub fn mark_attached(devices: &mut Vec<UsbDevice>, attachments: &[Attachment])
    ensures
        final(devices)@.len() == old(devices)@.len(),
        forall|i: int|
            0 <= i < old(devices)@.len() ==> #[trigger] final(devices)@[i]@ == with_attachment(
                old(devices)@[i]@,
                attached_port_of(attachments@, old(devices)@[i].busid@),
            ),
{
    let mut i: usize = 0;
    while i < devices.len()
        invariant
            0 <= i <= devices@.len(),
            devices@.len() == old(devices)@.len(),
            forall|j: int|
                0 <= j < i ==> #[trigger] devices@[j]@ == with_attachment(
                    old(devices)@[j]@,
                    attached_port_of(attachments@, old(devices)@[j].busid@),
                ),
            forall|j: int| i <= j < devices@.len() ==> #[trigger] devices@[j] == old(devices)@[j],
        decreases devices@.len() - i,
    {
        let port = find_attached_port(attachments, &devices[i].busid);
        devices[i].attached_port = port;
        devices[i].attached = port.is_some();
        i += 1;
    }
}

/// `i` is the first position of a device with `busid`.
pub open spec fn is_first_with_busid(devices: Seq<UsbDevice>, busid: Seq<char>, i: int) -> bool {
    &&& 0 <= i < devices.len()
    &&& devices[i].busid@ == busid
    &&& forall|j: int| 0 <= j < i ==> devices[j].busid@ != busid
}

/// Some device has `busid`.
pub open spec fn has_busid(devices: Seq<UsbDevice>, busid: Seq<char>) -> bool {
    exists|i: int| 0 <= i < devices.len() && devices[i].busid@ == busid
}

/// The position of the first device with `busid`.
pub fn position_of_busid(devices: &Vec<UsbDevice>, busid: &str) -> (r: Option<usize>)
    ensures
        match r {
            Some(i) => is_first_with_busid(devices@, busid@, i as int),
            None => !has_busid(devices@, busid@),
        },
{
    let mut i: usize = 0;
    while i < devices.len()
        invariant
            0 <= i <= devices@.len(),
            forall|j: int| 0 <= j < i ==> devices@[j].busid@ != busid@,
        decreases devices@.len() - i,
    {
        if crate::text::str_eq(devices[i].busid.as_str(), busid) {
            return Some(i);
        }
        i += 1;
    }
    None
}

// ---------------------------------------------------------------------------
// Laws
// ---------------------------------------------------------------------------
/// A device is marked attached exactly when some attachment imports its
/// busid, and then its port is that of the last attachment importing it; its
/// other fields stay as they were.
pub proof fn law_marked_attachment(d: DeviceView, attachments: Seq<Attachment>)
    ensures
        ({
            let r = with_attachment(d, attached_port_of(attachments, d.busid));
            &&& r.attached <==> exists|j: int|
                0 <= j < attachments.len() && #[trigger] attachments[j].remote_busid@ == d.busid
            &&& r.attached == r.attached_port is Some
            &&& forall|j: int|
                0 <= j < attachments.len() && #[trigger] attachments[j].remote_busid@ == d.busid
                    && (forall|k: int| j < k < attachments.len() ==> attachments[k].remote_busid@ != d.busid)
                    ==> r.attached_port == Some(attachments[j].port)
            &&& r.busid == d.busid && r.vendor_id == d.vendor_id && r.product_id == d.product_id
            &&& r.name == d.name && r.bound == d.bound && r.metadata == d.metadata
        }),
{
    lemma_attached_port_is_last(attachments, d.busid);
}

proof fn lemma_attached_port_is_last(attachments: Seq<Attachment>, busid: Seq<char>)
    ensures
        attached_port_of(attachments, busid) is None <==> !exists|j: int|
            0 <= j < attachments.len() && #[trigger] attachments[j].remote_busid@ == busid,
        forall|j: int|
            0 <= j < attachments.len() && #[trigger] attachments[j].remote_busid@ == busid && (forall|k: int|
                j < k < attachments.len() ==> attachments[k].remote_busid@ != busid)
                ==> attached_port_of(attachments, busid) == Some(attachments[j].port),
    decreases attachments.len(),
{
    if attachments.len() > 0 {
        let p = attachments.drop_last();
        let n = attachments.len() - 1;
        lemma_attached_port_is_last(p, busid);
        assert forall|j: int| 0 <= j < p.len() implies p[j] == attachments[j] by {}
        if attachments.last().remote_busid@ == busid {
            assert(attachments[n].remote_busid@ == busid);
            assert forall|j: int|
                0 <= j < attachments.len() && #[trigger] attachments[j].remote_busid@ == busid && (forall|k: int|
                    j < k < attachments.len() ==> attachments[k].remote_busid@ != busid)
                    implies attached_port_of(attachments, busid) == Some(attachments[j].port) by {
                if j < n {
                    assert(attachments[n].remote_busid@ != busid);
                }
            }
        } else {
            if exists|j: int| 0 <= j < attachments.len() && #[trigger] attachments[j].remote_busid@ == busid {
                let j = choose|j: int| 0 <= j < attachments.len() && #[trigger] attachments[j].remote_busid@ == busid;
                assert(j < n);
                assert(p[j].remote_busid@ == busid);
            }
            if exists|j: int| 0 <= j < p.len() && #[trigger] p[j].remote_busid@ == busid {
                let j = choose|j: int| 0 <= j < p.len() && #[trigger] p[j].remote_busid@ == busid;
                assert(attachments[j].remote_busid@ == busid);
            }
            assert forall|j: int|
                0 <= j < attachments.len() && #[trigger] attachments[j].remote_busid@ == busid && (forall|k: int|
                    j < k < attachments.len() ==> attachments[k].remote_busid@ != busid)
                    implies attached_port_of(attachments, busid) == Some(attachments[j].port) by {
                assert(j < n);
                assert(p[j].remote_busid@ == busid);
                assert forall|k: int| j < k < p.len() implies p[k].remote_busid@ != busid by {
                    assert(attachments[k].remote_busid@ != busid);
                }
            }
        }
    }
}

} // verus!
