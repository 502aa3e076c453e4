//! The interactive terminal interface: what it shows of the devices, where
//! notifications go, and how it reacts to keys and finished tasks.
use vstd::prelude::*;
use vstd::string::StringSliceAdditionalSpecFns;

use crate::commands::device::{spec_usbid, usbid};
use crate::commands::server::{device_not_found, device_not_found_message};
use crate::device::{has_busid, is_first_with_busid, position_of_busid, UsbDevice};
use crate::text::{
    chars_of, concat, decimal_string, lines, lines_exec, slice_chars, string_of, u16_to_string,
};

verus! {

// ---------------------------------------------------------------------------
// Cell and detail texts
// ---------------------------------------------------------------------------
/// A value for display: `unknown` where it is empty.
pub open spec fn spec_display_value(value: Seq<char>) -> Seq<char> {
    if value.len() == 0 {
        "unknown"@
    } else {
        value
    }
}

/// A value for display: `unknown` where it is empty.
pub fn display_value(value: &str) -> (r: String)
    ensures
        r@ == spec_display_value(value@),
{
    if value.is_empty() {
        "unknown".to_owned()
    } else {
        value.to_owned()
    }
}

/// An optional value for display: `unknown` where it is missing.
pub open spec fn spec_optional_value(value: Option<Seq<char>>) -> Seq<char> {
    match value {
        Some(v) => v,
        None => "unknown"@,
    }
}

/// An optional value for display: `unknown` where it is missing.
pub fn optional_value(value: Option<&str>) -> (r: String)
    ensures
        r@ == spec_optional_value(
            match value {
                Some(v) => Some(v@),
                None => None,
            },
        ),
{
    match value {
        Some(v) => v.to_owned(),
        None => "unknown".to_owned(),
    }
}

/// An optional port for display: its decimal digits, or `unknown`.
pub open spec fn spec_optional_u16(value: Option<u16>) -> Seq<char> {
    match value {
        Some(v) => decimal_string(v as nat),
        None => "unknown"@,
    }
}

/// An optional port for display: its decimal digits, or `unknown`.
pub fn optional_u16(value: Option<u16>) -> (r: String)
    ensures
        r@ == spec_optional_u16(value),
{
    match value {
        Some(v) => u16_to_string(v),
        None => "unknown".to_owned(),
    }
}

/// The text of a yes/no table cell.
pub fn bool_label(value: bool) -> (r: &'static str)
    ensures
        r@ == (if value {
            "yes"@
        } else {
            "no"@
        }),
{
    if value {
        "yes"
    } else {
        "no"
    }
}

/// `n` spaces.
pub open spec fn spaces(n: nat) -> Seq<char> {
    Seq::new(n, |i: int| ' ')
}

/// A line of the details pane: the label left-aligned in 16 columns, a space
/// and the value (`format!("{label:<16} {value}")`).
pub open spec fn spec_detail_line(label: Seq<char>, value: Seq<char>) -> Seq<char> {
    let pad: nat = if label.len() < 16 {
        (16 - label.len()) as nat
    } else {
        0
    };
    label + spaces(pad) + " "@ + value
}

/// A line of the details pane.
pub fn detail_line(label: &str, value: &str) -> (r: String)
    ensures
        r@ == spec_detail_line(label@, value@),
{
    let l = chars_of(label);
    let mut padded = string_of(&l);
    let mut n = l.len();
    while n < 16
        invariant
            l@ == label@,
            l@.len() <= n <= 16 || (n == l@.len() && n >= 16),
            padded@ == label@ + spaces((n - l@.len()) as nat),
        decreases 16 - n,
    {
        proof {
            reveal_strlit(" ");
        }
        let ghost before = padded@;
        padded = concat(padded.as_str(), " ");
        assert(spaces((n + 1 - l@.len()) as nat) =~= spaces((n - l@.len()) as nat).push(' '));
        n += 1;
        assert(padded@ =~= label@ + spaces((n - l@.len()) as nat));
    }
    let with_space = concat(padded.as_str(), " ");
    let r = concat(with_space.as_str(), value);
    assert(r@ =~= spec_detail_line(label@, value@));
    r
}

/// The lines of the details pane of a device.
pub open spec fn spec_detail_lines(d: UsbDevice) -> Seq<Seq<char>> {
    let m = d.metadata;
    seq![
        spec_detail_line("BUSID"@, d.busid@),
        spec_detail_line("USBID"@, d.vendor_id@ + ":"@ + d.product_id@),
        spec_detail_line("Manufacturer"@, spec_display_value(m.manufacturer@)),
        spec_detail_line("Product"@, spec_display_value(m.product@)),
        spec_detail_line("Name"@, d.name@),
        spec_detail_line("Bound"@, if d.bound { "yes"@ } else { "no"@ }),
        spec_detail_line("Attached"@, if d.attached { "yes"@ } else { "no"@ }),
        spec_detail_line("Attached port"@, spec_optional_u16(d.attached_port)),
        spec_detail_line("Serial"@, spec_optional_value(d@.metadata.serial)),
        spec_detail_line("Speed"@, spec_optional_value(d@.metadata.speed)),
        spec_detail_line("USB version"@, spec_optional_value(d@.metadata.usb_version)),
        spec_detail_line("Device version"@, spec_optional_value(d@.metadata.device_version)),
        spec_detail_line("Bus number"@, spec_optional_value(d@.metadata.busnum)),
        spec_detail_line("Device number"@, spec_optional_value(d@.metadata.devnum)),
        spec_detail_line("Device class"@, spec_optional_value(d@.metadata.device_class)),
        spec_detail_line("Device subclass"@, spec_optional_value(d@.metadata.device_subclass)),
        spec_detail_line("Device protocol"@, spec_optional_value(d@.metadata.device_protocol)),
        spec_detail_line("Driver"@, spec_optional_value(d@.metadata.driver)),
    ]
}

fn optional_string_value(value: &Option<String>) -> (r: String)
    ensures
        r@ == spec_optional_value(crate::device::opt_view(*value)),
{
    match value {
        Some(v) => v.clone(),
        None => "unknown".to_owned(),
    }
}

/// The lines of the details pane of a device.
pub fn detail_lines(device: &UsbDevice) -> (r: Vec<String>)
    ensures
        r@.map_values(|s: String| s@) == spec_detail_lines(*device),
{
    let m = &device.metadata;
    let usbid_text = {
        let a = concat(device.vendor_id.as_str(), ":");
        concat(a.as_str(), device.product_id.as_str())
    };
    let mut r: Vec<String> = Vec::new();
    r.push(detail_line("BUSID", device.busid.as_str()));
    r.push(detail_line("USBID", usbid_text.as_str()));
    r.push(detail_line("Manufacturer", display_value(m.manufacturer.as_str()).as_str()));
    r.push(detail_line("Product", display_value(m.product.as_str()).as_str()));
    r.push(detail_line("Name", device.name.as_str()));
    r.push(detail_line("Bound", bool_label(device.bound)));
    r.push(detail_line("Attached", bool_label(device.attached)));
    r.push(detail_line("Attached port", optional_u16(device.attached_port).as_str()));
    r.push(detail_line("Serial", optional_string_value(&m.serial).as_str()));
    r.push(detail_line("Speed", optional_string_value(&m.speed).as_str()));
    r.push(detail_line("USB version", optional_string_value(&m.usb_version).as_str()));
    r.push(detail_line("Device version", optional_string_value(&m.device_version).as_str()));
    r.push(detail_line("Bus number", optional_string_value(&m.busnum).as_str()));
    r.push(detail_line("Device number", optional_string_value(&m.devnum).as_str()));
    r.push(detail_line("Device class", optional_string_value(&m.device_class).as_str()));
    r.push(detail_line("Device subclass", optional_string_value(&m.device_subclass).as_str()));
    r.push(detail_line("Device protocol", optional_string_value(&m.device_protocol).as_str()));
    r.push(detail_line("Driver", optional_string_value(&m.driver).as_str()));
    assert(r@.map_values(|s: String| s@) =~= spec_detail_lines(*device));
    r
}

/// The cells of a device's table row: busid, usbid, bound, attached,
/// manufacturer and product.
pub fn device_cells(device: &UsbDevice) -> (r: Vec<String>)
    ensures
        r@.map_values(|s: String| s@) == seq![
            device.busid@,
            spec_usbid(device.vendor_id@, device.product_id@),
            if device.bound { "yes"@ } else { "no"@ },
            if device.attached { "yes"@ } else { "no"@ },
            spec_display_value(device.metadata.manufacturer@),
            spec_display_value(device.metadata.product@),
        ],
{
    let mut r: Vec<String> = Vec::new();
    r.push(device.busid.clone());
    r.push(usbid(device));
    r.push(bool_label(device.bound).to_owned());
    r.push(bool_label(device.attached).to_owned());
    r.push(display_value(device.metadata.manufacturer.as_str()));
    r.push(display_value(device.metadata.product.as_str()));
    assert(r@.map_values(|s: String| s@) =~= seq![
        device.busid@,
        spec_usbid(device.vendor_id@, device.product_id@),
        if device.bound { "yes"@ } else { "no"@ },
        if device.attached { "yes"@ } else { "no"@ },
        spec_display_value(device.metadata.manufacturer@),
        spec_display_value(device.metadata.product@),
    ]);
    r
}

// ---------------------------------------------------------------------------
// Layout
// ---------------------------------------------------------------------------
/// A rectangle of the terminal, in cells.
#[derive(Debug, Clone, Copy, PartialEq, Eq)]
pub struct Area {
    pub x: u16,
    pub y: u16,
    pub width: u16,
    pub height: u16,
}

/// `a - b`, or 0 where `b > a` (`saturating_sub`).
pub open spec fn sat_sub(a: int, b: int) -> int {
    if a >= b {
        a - b
    } else {
        0
    }
}

pub open spec fn min(a: int, b: int) -> int {
    if a <= b {
        a
    } else {
        b
    }
}

pub open spec fn max(a: int, b: int) -> int {
    if a >= b {
        a
    } else {
        b
    }
}

fn sat_sub_u16(a: u16, b: u16) -> (r: u16)
    ensures
        r == sat_sub(a as int, b as int),
{
    if a >= b {
        a - b
    } else {
        0
    }
}

fn min_u16(a: u16, b: u16) -> (r: u16)
    ensures
        r == min(a as int, b as int),
{
    if a <= b {
        a
    } else {
        b
    }
}

fn max_u16(a: u16, b: u16) -> (r: u16)
    ensures
        r == max(a as int, b as int),
{
    if a >= b {
        a
    } else {
        b
    }
}

/// The size of a box centred in `area`, at most `width` by `height` and
/// leaving a cell free on each side.
pub open spec fn centered_size(area: Area, width: u16, height: u16) -> (int, int) {
    (min(width as int, sat_sub(area.width as int, 2)), min(height as int, sat_sub(area.height as int, 2)))
}

/// The position of the centred box fits in `u16`.
pub open spec fn centered_rect_fits(area: Area, width: u16, height: u16) -> bool {
    let (w, h) = centered_size(area, width, height);
    &&& area.x + sat_sub(area.width as int, w) / 2 <= u16::MAX
    &&& area.y + sat_sub(area.height as int, h) / 2 <= u16::MAX
}

/// A box centred in `area`, at most `width` by `height`.
pub fn centered_rect(area: Area, width: u16, height: u16) -> (r: Area)
    requires
        centered_rect_fits(area, width, height),
    ensures
        ({
            let (w, h) = centered_size(area, width, height);
            r == Area {
                x: (area.x + sat_sub(area.width as int, w) / 2) as u16,
                y: (area.y + sat_sub(area.height as int, h) / 2) as u16,
                width: w as u16,
                height: h as u16,
            }
        }),
{
    let width = min_u16(width, sat_sub_u16(area.width, 2));
    let height = min_u16(height, sat_sub_u16(area.height, 2));
    let x = area.x + sat_sub_u16(area.width, width) / 2;
    let y = area.y + sat_sub_u16(area.height, height) / 2;
    Area { x, y, width, height }
}

/// A centred box, or `None` where its position would leave `u16` (where
/// [`centered_rect`] may not be called).
pub fn try_centered_rect(area: Area, width: u16, height: u16) -> (r: Option<Area>)
    ensures
        match r {
            Some(a) => centered_rect_fits(area, width, height) && ({
                let (w, h) = centered_size(area, width, height);
                a == Area {
                    x: (area.x + sat_sub(area.width as int, w) / 2) as u16,
                    y: (area.y + sat_sub(area.height as int, h) / 2) as u16,
                    width: w as u16,
                    height: h as u16,
                }
            }),
            None => !centered_rect_fits(area, width, height),
        },
{
    let w = min_u16(width, sat_sub_u16(area.width, 2));
    let h = min_u16(height, sat_sub_u16(area.height, 2));
    if area.x as u32 + (sat_sub_u16(area.width, w) / 2) as u32 > 65535 || area.y as u32 + (
    sat_sub_u16(area.height, h) / 2) as u32 > 65535 {
        return None;
    }
    Some(centered_rect(area, width, height))
}

/// The width of the notification box: the area width less 2, within 24..=64.
pub open spec fn notification_width(area: Area) -> int {
    max(min(sat_sub(area.width as int, 2), 64), 24)
}

/// The columns of text inside a box of `width`.
pub open spec fn inner_width(width: int) -> int {
    max(sat_sub(width, 2), 1)
}

/// The rows the lines take when wrapped to `width` columns, counting an
/// empty line as one row.
pub open spec fn wrapped_rows(ls: Seq<Seq<char>>, width: int) -> nat
    decreases ls.len(),
{
    if ls.len() == 0 {
        0
    } else {
        max((ls[0].len() as int) / width, 1) as nat + wrapped_rows(ls.drop_first(), width)
    }
}

/// The height of the notification box for a message, before it is limited to
/// the area: the row count (as a `u16`) plus the borders, within 3..=8.
pub open spec fn notification_height(area: Area, message: Seq<char>) -> int {
    let rows = wrapped_rows(lines(message), inner_width(notification_width(area))) as u16;
    max(min(rows + 2, 8), 3)
}

/// The arithmetic of the notification box stays within `u16`.
pub open spec fn notification_area_fits(area: Area, message: Seq<char>) -> bool {
    let width = notification_width(area);
    let rows = wrapped_rows(lines(message), inner_width(width)) as u16;
    &&& rows + 2 <= u16::MAX
    &&& area.x + sat_sub(area.width as int, width + 1) <= u16::MAX
    &&& area.y + 1 <= u16::MAX
}

/// The notification box: at the top right of `area`, one cell from the top
/// and the right edge.
pub open spec fn spec_notification_area(area: Area, message: Seq<char>) -> Area {
    let width = notification_width(area);
    Area {
        x: (area.x + sat_sub(area.width as int, width + 1)) as u16,
        y: (area.y + 1) as u16,
        width: width as u16,
        height: min(notification_height(area, message), sat_sub(area.height as int, 2)) as u16,
    }
}

proof fn lemma_wrapped_rows_bound(s: Seq<char>, width: int)
    requires
        width >= 1,
    ensures
        wrapped_rows(lines(s), width) <= s.len(),
    decreases s.len(),
{
    if s.len() > 0 {
        crate::text::lemma_find_char(s, '\n');
        match crate::text::find_char(s, '\n') {
            Some(i) => {
                let l = crate::text::strip_cr(s.take(i));
                lemma_wrapped_rows_bound(s.skip(i + 1), width);
                let ls = lines(s);
                assert(ls == seq![l] + lines(s.skip(i + 1)));
                assert(ls[0] == l);
                assert(ls.drop_first() =~= lines(s.skip(i + 1)));
                assert(l.len() <= i);
                assert((l.len() as int) / width <= l.len()) by (nonlinear_arith)
                    requires
                        width >= 1,
                ;
                assert(wrapped_rows(ls, width) == max((l.len() as int) / width, 1) as nat
                    + wrapped_rows(ls.drop_first(), width));
                assert((l.len() as int) / width <= l.len()) by (nonlinear_arith)
                    requires
                        width >= 1,
                        l.len() >= 0,
                ;
            },
            None => {
                let ls = lines(s);
                assert(ls == seq![s]);
                assert(ls.drop_first() =~= Seq::<Seq<char>>::empty());
                assert(wrapped_rows(ls, width) == max((s.len() as int) / width, 1) as nat
                    + wrapped_rows(ls.drop_first(), width));
                assert((s.len() as int) / width <= s.len()) by (nonlinear_arith)
                    requires
                        width >= 1,
                        s.len() >= 0,
                ;
            },
        }
    }
}

/// The rows `message` takes wrapped to `content_width` columns.
fn wrapped_row_count(message: &str, content_width: usize) -> (rows: usize)
    requires
        content_width >= 1,
    ensures
        rows == wrapped_rows(lines(message@), content_width as int),
{
    let text = chars_of(message);
    let all = lines_exec(&text);
    let ghost lv = all@.map_values(|x: Vec<char>| x@);
    proof {
        lemma_wrapped_rows_bound(message@, content_width as int);
        assert(lv.skip(lv.len() as int) =~= Seq::<Seq<char>>::empty());
    }
    let mut rows: usize = 0;
    let mut i: usize = all.len();
    while i > 0
        invariant
            0 <= i <= all@.len(),
            lv == all@.map_values(|x: Vec<char>| x@),
            lv == lines(message@),
            content_width >= 1,
            rows == wrapped_rows(lv.skip(i as int), content_width as int),
            wrapped_rows(lv, content_width as int) <= text@.len(),
            text@.len() == text.len(),
        decreases i,
    {
        proof {
            lemma_wrapped_rows_suffix(lv, i - 1, content_width as int);
            assert(lv.skip(i - 1).drop_first() =~= lv.skip(i as int));
        }
        let n = all[i - 1].len() / content_width;
        let units = if n > 1 {
            n
        } else {
            1
        };
        rows = rows + units;
        i -= 1;
    }
    assert(lv.skip(0) =~= lv);
    rows
}

/// Where a notification goes.
pub fn notification_area(area: Area, message: &str) -> (r: Area)
    requires
        notification_area_fits(area, message@),
    ensures
        r == spec_notification_area(area, message@),
{
    let width = max_u16(min_u16(sat_sub_u16(area.width, 2), 64), 24);
    let content_width = max_u16(sat_sub_u16(width, 2), 1) as usize;
    let rows = wrapped_row_count(message, content_width);
    #[verifier::truncate]
    let rows16 = rows as u16;
    let height = max_u16(min_u16(rows16 + 2, 8), 3);
    let x = area.x + sat_sub_u16(area.width, width + 1);
    let y = area.y + 1;
    Area { x, y, width, height: min_u16(height, sat_sub_u16(area.height, 2)) }
}

/// Where a notification goes, or `None` where the arithmetic would leave
/// `u16` (where [`notification_area`] may not be called).
pub fn try_notification_area(area: Area, message: &str) -> (r: Option<Area>)
    ensures
        match r {
            Some(a) => notification_area_fits(area, message@) && a == spec_notification_area(
                area,
                message@,
            ),
            None => !notification_area_fits(area, message@),
        },
{
    let width = max_u16(min_u16(sat_sub_u16(area.width, 2), 64), 24);
    let content_width = max_u16(sat_sub_u16(width, 2), 1) as usize;
    let rows = wrapped_row_count(message, content_width);
    #[verifier::truncate]
    let rows16 = rows as u16;
    if rows16 > 65533 || area.x as u32 + sat_sub_u16(area.width, width + 1) as u32 > 65535
        || area.y == 65535 {
        return None;
    }
    Some(notification_area(area, message))
}

/// The rows of a suffix are at most the rows of the whole.
proof fn lemma_wrapped_rows_suffix(ls: Seq<Seq<char>>, i: int, width: int)
    requires
        0 <= i <= ls.len(),
        width >= 1,
    ensures
        wrapped_rows(ls.skip(i), width) <= wrapped_rows(ls, width),
    decreases i,
{
    if i > 0 {
        lemma_wrapped_rows_suffix(ls.drop_first(), i - 1, width);
        assert(ls.drop_first().skip(i - 1) =~= ls.skip(i));
    } else {
        assert(ls.skip(0) =~= ls);
    }
}

// ---------------------------------------------------------------------------
// Notification text
// ---------------------------------------------------------------------------
/// `s` cut into pieces of `width` characters (the last may be shorter).
pub open spec fn chunks(s: Seq<char>, width: nat) -> Seq<Seq<char>>
    decreases s.len(),
{
    if s.len() == 0 || width == 0 {
        seq![]
    } else if s.len() <= width {
        seq![s]
    } else {
        seq![s.take(width as int)] + chunks(s.skip(width as int), width)
    }
}

/// The display pieces of one message line: its chunks, or one empty piece
/// for an empty line. The flag tells a chunk from an empty line.
pub open spec fn line_pieces(line: Seq<char>, width: nat) -> Seq<(Seq<char>, bool)> {
    if line.len() == 0 {
        seq![(Seq::<char>::empty(), false)]
    } else {
        chunks(line, width).map_values(|c: Seq<char>| (c, true))
    }
}

/// The display pieces of the lines of a message.
pub open spec fn message_pieces(ls: Seq<Seq<char>>, width: nat) -> Seq<(Seq<char>, bool)>
    decreases ls.len(),
{
    if ls.len() == 0 {
        seq![]
    } else {
        message_pieces(ls.drop_last(), width) + line_pieces(ls.last(), width)
    }
}

/// Some chunk does not fit in `max` lines (an empty line beyond them does
/// not count).
pub open spec fn pieces_truncated(pieces: Seq<(Seq<char>, bool)>, max: nat) -> bool {
    exists|k: int| max <= k < pieces.len() && #[trigger] pieces[k].1
}

/// The first `n` UTF-8 bytes of `s`, as characters (`String::truncate`);
/// all of `s` where it is shorter.
pub open spec fn truncate_bytes(s: Seq<char>, n: nat) -> Seq<char> {
    if n >= vstd::utf8::encode_utf8(s).len() {
        s
    } else {
        vstd::utf8::decode_utf8(vstd::utf8::encode_utf8(s).take(n as int))
    }
}

/// The lines shown before the truncation mark.
pub open spec fn shown_pieces(message: Seq<char>, area: Area) -> Seq<Seq<char>> {
    let width = inner_width(area.width as int) as nat;
    let max_lines = max(sat_sub(area.height as int, 2), 1) as nat;
    let pieces = message_pieces(lines(message), width);
    pieces.take(min(max_lines as int, pieces.len() as int)).map_values(
        |p: (Seq<char>, bool)| p.0,
    )
}

/// Whether the message is cut short.
pub open spec fn notification_truncated(message: Seq<char>, area: Area) -> bool {
    let width = inner_width(area.width as int) as nat;
    let max_lines = max(sat_sub(area.height as int, 2), 1) as nat;
    pieces_truncated(message_pieces(lines(message), width), max_lines)
}

/// The lines of a notification in a box: its lines wrapped to the inner
/// width, at most the inner height of them, the last ending in `...` (after
/// being cut to the inner width less 3, in bytes) where text did not fit.
pub open spec fn spec_notification_lines(message: Seq<char>, area: Area) -> Seq<Seq<char>> {
    let shown = shown_pieces(message, area);
    let width = inner_width(area.width as int);
    if notification_truncated(message, area) && shown.len() > 0 {
        shown.update(
            shown.len() - 1,
            truncate_bytes(shown.last(), sat_sub(width, 3) as nat) + "..."@,
        )
    } else {
        shown
    }
}

/// `String::truncate` does not panic on the last shown line: the cut falls
/// on a character boundary, or beyond the end.
pub open spec fn notification_lines_fit(message: Seq<char>, area: Area) -> bool {
    let shown = shown_pieces(message, area);
    let n = sat_sub(inner_width(area.width as int), 3);
    notification_truncated(message, area) && shown.len() > 0 ==> (n >= vstd::utf8::encode_utf8(
        shown.last(),
    ).len() || vstd::utf8::is_char_boundary(vstd::utf8::encode_utf8(shown.last()), n))
}

fn line_pieces_exec(line: &Vec<char>, width: usize, out: &mut Vec<(Vec<char>, bool)>)
    requires
        width >= 1,
    ensures
        final(out)@.map_values(|p: (Vec<char>, bool)| (p.0@, p.1)) == old(out)@.map_values(
            |p: (Vec<char>, bool)| (p.0@, p.1),
        ) + line_pieces(line@, width as nat),
{
    let ghost base = old(out)@.map_values(|p: (Vec<char>, bool)| (p.0@, p.1));
    if line.len() == 0 {
        out.push((Vec::new(), false));
        assert(out@.map_values(|p: (Vec<char>, bool)| (p.0@, p.1)) =~= base + line_pieces(
            line@,
            width as nat,
        ));
        return;
    }
    let ghost w = width as nat;
    let mut i: usize = 0;
    assert(line@.skip(0) =~= line@);
    while i < line.len()
        invariant
            0 <= i <= line@.len(),
            line@.len() > 0,
            width >= 1,
            w == width as nat,
            out@.map_values(|p: (Vec<char>, bool)| (p.0@, p.1)) + chunks(
                line@.skip(i as int),
                w,
            ).map_values(|c: Seq<char>| (c, true)) == base + chunks(line@, w).map_values(
                |c: Seq<char>| (c, true),
            ),
        decreases line@.len() - i,
    {
        let ghost rest = line@.skip(i as int);
        let end = if line.len() - i <= width {
            line.len()
        } else {
            i + width
        };
        let piece = slice_chars(line, i, end);
        let ghost before = out@.map_values(|p: (Vec<char>, bool)| (p.0@, p.1));
        out.push((piece, true));
        assert(out@.map_values(|p: (Vec<char>, bool)| (p.0@, p.1)) =~= before.push(
            (piece@, true),
        ));
        if end == line.len() {
            assert(rest =~= piece@);
            assert(chunks(rest, w) =~= seq![rest]);
            assert(line@.skip(end as int) =~= Seq::<char>::empty());
            assert(chunks(line@.skip(end as int), w) =~= Seq::<Seq<char>>::empty());
        } else {
            assert(rest.take(w as int) =~= piece@);
            assert(rest.skip(w as int) =~= line@.skip(end as int));
        }
        assert(chunks(rest, w).map_values(|c: Seq<char>| (c, true)) =~= seq![(piece@, true)]
            + chunks(line@.skip(end as int), w).map_values(|c: Seq<char>| (c, true)));
        i = end;
    }
    assert(line@.skip(i as int) =~= Seq::<char>::empty());
    assert(chunks(line@.skip(i as int), w).map_values(|c: Seq<char>| (c, true))
        =~= Seq::<(Seq<char>, bool)>::empty());
    assert(out@.map_values(|p: (Vec<char>, bool)| (p.0@, p.1)) =~= base + line_pieces(
        line@,
        width as nat,
    ));
}

/// Cuts `s` to its first `n` UTF-8 bytes (`String::truncate`).
fn truncate_to_bytes(s: String, n: usize) -> (r: String)
    requires
        n >= vstd::utf8::encode_utf8(s@).len() || vstd::utf8::is_char_boundary(
            vstd::utf8::encode_utf8(s@),
            n as int,
        ),
    ensures
        r@ == truncate_bytes(s@, n as nat),
{
    let t = s.as_str();
    if n >= t.as_bytes().len() {
        s
    } else {
        let (head, _) = t.split_at(n);
        proof {
            assert(t@ == s@);
            assert(head.spec_bytes() == vstd::utf8::encode_utf8(head@));
            assert(t.spec_bytes() == vstd::utf8::encode_utf8(s@));
            assert(vstd::utf8::encode_utf8(head@) =~= vstd::utf8::encode_utf8(s@).take(n as int));
            vstd::utf8::encode_utf8_decode_utf8(head@);
        }
        head.to_owned()
    }
}

/// The shown lines of a notification before the truncation mark, and
/// whether text did not fit.
fn shown_lines(message: &str, area: Area) -> (r: (Vec<String>, bool))
    ensures
        r.0@.map_values(|s: String| s@) == shown_pieces(message@, area),
        r.1 == notification_truncated(message@, area),
{
    let content_width = max_u16(sat_sub_u16(area.width, 2), 1) as usize;
    let max_lines = max_u16(sat_sub_u16(area.height, 2), 1) as usize;
    let ghost w = content_width as nat;
    let text = chars_of(message);
    let all = lines_exec(&text);
    let ghost lv = all@.map_values(|x: Vec<char>| x@);
    let mut pieces: Vec<(Vec<char>, bool)> = Vec::new();
    let mut i: usize = 0;
    assert(pieces@.map_values(|p: (Vec<char>, bool)| (p.0@, p.1)) =~= message_pieces(
        lv.take(0),
        w,
    ));
    while i < all.len()
        invariant
            0 <= i <= all@.len(),
            lv == all@.map_values(|x: Vec<char>| x@),
            lv == lines(message@),
            content_width >= 1,
            w == content_width as nat,
            pieces@.map_values(|p: (Vec<char>, bool)| (p.0@, p.1)) == message_pieces(
                lv.take(i as int),
                w,
            ),
        decreases all@.len() - i,
    {
        assert(lv.take(i + 1).drop_last() =~= lv.take(i as int));
        assert(lv.take(i + 1).last() == all@[i as int]@);
        line_pieces_exec(&all[i], content_width, &mut pieces);
        i += 1;
    }
    assert(lv.take(all@.len() as int) =~= lv);
    let ghost pv = pieces@.map_values(|p: (Vec<char>, bool)| (p.0@, p.1));
    let shown_count = if max_lines < pieces.len() {
        max_lines
    } else {
        pieces.len()
    };
    let mut out: Vec<String> = Vec::new();
    let mut k: usize = 0;
    while k < shown_count
        invariant
            0 <= k <= shown_count <= pieces@.len(),
            pv == pieces@.map_values(|p: (Vec<char>, bool)| (p.0@, p.1)),
            out@.map_values(|s: String| s@) == pv.take(k as int).map_values(
                |p: (Seq<char>, bool)| p.0,
            ),
        decreases shown_count - k,
    {
        let ghost before = out@;
        assert(pv[k as int].0 == pieces@[k as int].0@);
        let text = string_of(&pieces[k].0);
        out.push(text);
        assert(out@.map_values(|s: String| s@) =~= before.map_values(|s: String| s@).push(
            pv[k as int].0,
        ));
        assert(out@.map_values(|s: String| s@) =~= pv.take(k + 1).map_values(
            |p: (Seq<char>, bool)| p.0,
        ));
        k += 1;
    }
    let mut truncated = false;
    let mut j: usize = max_lines;
    while j < pieces.len()
        invariant
            max_lines <= j,
            j <= pieces@.len() || j == max_lines,
            pv == pieces@.map_values(|p: (Vec<char>, bool)| (p.0@, p.1)),
            truncated == exists|k: int| max_lines <= k < j && k < pv.len() && #[trigger] pv[k].1,
        decreases pieces@.len() - j,
    {
        if pieces[j].1 {
            assert(pv[j as int].1);
            truncated = true;
        }
        j += 1;
    }
    assert(truncated == pieces_truncated(pv, max_lines as nat));
    (out, truncated)
}

/// The lines of a notification shown in a box of `area`'s size.
pub fn notification_lines(message: &str, area: Area) -> (r: Vec<String>)
    requires
        notification_lines_fit(message@, area),
    ensures
        r@.map_values(|s: String| s@) == spec_notification_lines(message@, area),
{
    let content_width = max_u16(sat_sub_u16(area.width, 2), 1) as usize;
    let (mut out, truncated) = shown_lines(message, area);
    if truncated && out.len() > 0 {
        let last_index = out.len() - 1;
        let ghost shown = out@.map_values(|s: String| s@);
        let last = out.pop().unwrap();
        assert(last@ == shown.last());
        let cut = truncate_to_bytes(last, sat_sub_u16(content_width as u16, 3) as usize);
        let marked = concat(cut.as_str(), "...");
        out.push(marked);
        assert(out@.map_values(|s: String| s@) =~= shown.update(
            last_index as int,
            truncate_bytes(shown.last(), sat_sub(content_width as int, 3) as nat) + "..."@,
        ));
    }
    out
}

// ---------------------------------------------------------------------------
// Notifications
// ---------------------------------------------------------------------------
/// What a notification reports.
#[derive(Debug, Clone, Copy, PartialEq, Eq)]
pub enum NotificationKind {
    Success,
    Warning,
    Error,
}

/// A message shown at the top right of the screen for a while.
#[derive(Debug, Clone)]
pub struct Notification {
    pub message: String,
    pub kind: NotificationKind,
}

impl View for Notification {
    type V = (Seq<char>, NotificationKind);

    open spec fn view(&self) -> (Seq<char>, NotificationKind) {
        (self.message@, self.kind)
    }
}

impl Notification {
    pub fn new(message: String, kind: NotificationKind) -> (r: Self)
        ensures
            r@ == (message@, kind),
    {
        Notification { message, kind }
    }

    pub fn success(message: String) -> (r: Self)
        ensures
            r@ == (message@, NotificationKind::Success),
    {
        Self::new(message, NotificationKind::Success)
    }

    pub fn warning(message: String) -> (r: Self)
        ensures
            r@ == (message@, NotificationKind::Warning),
    {
        Self::new(message, NotificationKind::Warning)
    }

    pub fn error(message: String) -> (r: Self)
        ensures
            r@ == (message@, NotificationKind::Error),
    {
        Self::new(message, NotificationKind::Error)
    }
}

/// The title of a notification box.
pub fn notification_title(kind: NotificationKind) -> (r: &'static str)
    ensures
        r@ == (match kind {
            NotificationKind::Success => " success "@,
            NotificationKind::Warning => " notice "@,
            NotificationKind::Error => " error "@,
        }),
{
    match kind {
        NotificationKind::Success => " success ",
        NotificationKind::Warning => " notice ",
        NotificationKind::Error => " error ",
    }
}

// ---------------------------------------------------------------------------
// Selection
// ---------------------------------------------------------------------------
/// The row after the selected one, wrapping to the first; the first row when
/// none is selected; none in an empty table.
pub open spec fn spec_select_next(selected: Option<usize>, len: nat) -> Option<usize> {
    if len == 0 {
        None
    } else {
        match selected {
            None => Some(0),
            Some(i) => Some(((i + 1) % (len as int)) as usize),
        }
    }
}

/// The row before the selected one, wrapping to the last; the first row when
/// none is selected; none in an empty table.
pub open spec fn spec_select_previous(selected: Option<usize>, len: nat) -> Option<usize> {
    if len == 0 {
        None
    } else {
        match selected {
            None => Some(0),
            Some(i) => if i == 0 {
                Some((len - 1) as usize)
            } else {
                Some((i - 1) as usize)
            },
        }
    }
}

/// Moves the selection down.
pub fn select_next(selected: Option<usize>, len: usize) -> (r: Option<usize>)
    requires
        selected != Some(usize::MAX),
    ensures
        r == spec_select_next(selected, len as nat),
{
    if len == 0 {
        return None;
    }
    match selected {
        None => Some(0),
        Some(i) => Some((i + 1) % len),
    }
}

/// Moves the selection up.
pub fn select_previous(selected: Option<usize>, len: usize) -> (r: Option<usize>)
    ensures
        r == spec_select_previous(selected, len as nat),
{
    if len == 0 {
        return None;
    }
    match selected {
        None => Some(0),
        Some(i) => if i == 0 {
            Some(len - 1)
        } else {
            Some(i - 1)
        },
    }
}

/// The selected device, if the selection is within the list.
pub open spec fn spec_selected_device(devices: Seq<UsbDevice>, selected: Option<usize>) -> Option<
    UsbDevice,
> {
    match selected {
        Some(i) => if i < devices.len() {
            Some(devices[i as int])
        } else {
            None
        },
        None => None,
    }
}

/// The selected device, if the selection is within the list.
pub fn selected_device(devices: &Vec<UsbDevice>, selected: Option<usize>) -> (r: Option<&UsbDevice>)
    ensures
        match r {
            Some(d) => spec_selected_device(devices@, selected) == Some(*d),
            None => spec_selected_device(devices@, selected) is None,
        },
{
    match selected {
        Some(i) => if i < devices.len() {
            Some(&devices[i])
        } else {
            None
        },
        None => None,
    }
}

/// The selection after the list is refreshed: none for an empty list, the
/// first row where nothing or a row past the end was selected.
pub open spec fn selection_after_refresh(selected: Option<usize>, len: nat) -> Option<usize> {
    if len == 0 {
        None
    } else {
        match selected {
            Some(i) => if i < len {
                Some(i)
            } else {
                Some(0)
            },
            None => Some(0),
        }
    }
}

// ---------------------------------------------------------------------------
// Keys, events and actions
// ---------------------------------------------------------------------------
/// A key the user pressed.
#[derive(Debug, Clone, Copy, PartialEq, Eq)]
pub enum TuiKey {
    Char(char),
    Up,
    Down,
    Esc,
    Other,
}

/// What a key asks for.
#[derive(Debug, Clone, Copy, PartialEq, Eq)]
pub enum KeyCommand {
    Quit,
    Refresh,
    Next,
    Previous,
    CloseDetails,
    ToggleDetails,
    Bind,
    Unbind,
    Attach,
    Detach,
    Ignore,
}

/// The key bindings: `q` quit, `r` refresh, `j`/down and `k`/up move, `Esc`
/// closes and `i` toggles the details, `b` bind, `u` unbind, `a` attach,
/// `d` detach.
pub open spec fn spec_key_command(key: TuiKey) -> KeyCommand {
    match key {
        TuiKey::Char(c) => if c == 'q' {
            KeyCommand::Quit
        } else if c == 'r' {
            KeyCommand::Refresh
        } else if c == 'j' {
            KeyCommand::Next
        } else if c == 'k' {
            KeyCommand::Previous
        } else if c == 'i' {
            KeyCommand::ToggleDetails
        } else if c == 'b' {
            KeyCommand::Bind
        } else if c == 'u' {
            KeyCommand::Unbind
        } else if c == 'a' {
            KeyCommand::Attach
        } else if c == 'd' {
            KeyCommand::Detach
        } else {
            KeyCommand::Ignore
        },
        TuiKey::Down => KeyCommand::Next,
        TuiKey::Up => KeyCommand::Previous,
        TuiKey::Esc => KeyCommand::CloseDetails,
        TuiKey::Other => KeyCommand::Ignore,
    }
}

/// What a key asks for.
pub fn key_command(key: TuiKey) -> (r: KeyCommand)
    ensures
        r == spec_key_command(key),
{
    match key {
        TuiKey::Char(c) => if c == 'q' {
            KeyCommand::Quit
        } else if c == 'r' {
            KeyCommand::Refresh
        } else if c == 'j' {
            KeyCommand::Next
        } else if c == 'k' {
            KeyCommand::Previous
        } else if c == 'i' {
            KeyCommand::ToggleDetails
        } else if c == 'b' {
            KeyCommand::Bind
        } else if c == 'u' {
            KeyCommand::Unbind
        } else if c == 'a' {
            KeyCommand::Attach
        } else if c == 'd' {
            KeyCommand::Detach
        } else {
            KeyCommand::Ignore
        },
        TuiKey::Down => KeyCommand::Next,
        TuiKey::Up => KeyCommand::Previous,
        TuiKey::Esc => KeyCommand::CloseDetails,
        TuiKey::Other => KeyCommand::Ignore,
    }
}

/// Something that happened while the interface runs.
#[derive(Debug)]
pub enum TuiEvent {
    /// The notification has been shown long enough.
    NotificationExpired,
    /// The background refresh finished with the devices or an error message.
    RefreshFinished(Result<Vec<UsbDevice>, String>),
    /// The background action finished with a report or an error message.
    ActionFinished(Result<String, String>),
    /// The refresh interval has passed since the last refresh started.
    RefreshDue,
    /// The user pressed a key.
    Key(TuiKey),
}

/// What the interface asks its driver to do.
#[derive(Debug, Clone, PartialEq, Eq)]
pub enum TuiAction {
    Nothing,
    Quit,
    /// Start a background refresh now.
    StartRefresh,
    /// Refresh as soon as the running refresh is done.
    RefreshSoon,
    /// Bind the device on the server.
    StartBind { busid: String, name: String },
    /// Unbind the device on the server.
    StartUnbind { busid: String, name: String },
    /// Bind the device where needed and attach it here.
    StartAttach { busid: String, name: String },
    /// Detach the local port.
    StartDetach { port: u16 },
}

/// The state of the interface.
pub struct TuiModel {
    pub devices: Seq<UsbDevice>,
    pub selected: Option<usize>,
    pub notification: Option<(Seq<char>, NotificationKind)>,
    pub show_details: bool,
    pub refreshing: bool,
    pub acting: bool,
}

/// Starts a refresh where none is running.
pub open spec fn step_refresh(m: TuiModel) -> (TuiModel, TuiAction, bool) {
    if m.refreshing {
        (m, TuiAction::Nothing, false)
    } else {
        (TuiModel { refreshing: true, ..m }, TuiAction::StartRefresh, false)
    }
}

/// What a key does: actions start only while no action runs and a device is
/// selected; binding a bound device or detaching an unattached one only warns.
pub open spec fn step_key(m: TuiModel, command: KeyCommand) -> (TuiModel, TuiAction, bool) {
    let selected = spec_selected_device(m.devices, m.selected);
    match command {
        KeyCommand::Quit => (m, TuiAction::Quit, false),
        KeyCommand::Refresh => step_refresh(m),
        KeyCommand::Next => (
            TuiModel { selected: spec_select_next(m.selected, m.devices.len()), ..m },
            TuiAction::Nothing,
            false,
        ),
        KeyCommand::Previous => (
            TuiModel { selected: spec_select_previous(m.selected, m.devices.len()), ..m },
            TuiAction::Nothing,
            false,
        ),
        KeyCommand::CloseDetails => (TuiModel { show_details: false, ..m }, TuiAction::Nothing, false),
        KeyCommand::ToggleDetails => (
            TuiModel { show_details: !m.show_details, ..m },
            TuiAction::Nothing,
            false,
        ),
        KeyCommand::Bind => match selected {
            Some(d) if !m.acting => if d.bound {
                (
                    TuiModel {
                        notification: Some(
                            ("selected device is already bound"@, NotificationKind::Warning),
                        ),
                        ..m
                    },
                    TuiAction::Nothing,
                    true,
                )
            } else {
                (
                    TuiModel { acting: true, ..m },
                    TuiAction::StartBind { busid: d.busid, name: d.name },
                    false,
                )
            },
            _ => (m, TuiAction::Nothing, false),
        },
        KeyCommand::Unbind => match selected {
            Some(d) if !m.acting => (
                TuiModel { acting: true, ..m },
                TuiAction::StartUnbind { busid: d.busid, name: d.name },
                false,
            ),
            _ => (m, TuiAction::Nothing, false),
        },
        KeyCommand::Attach => match selected {
            Some(d) if !m.acting => (
                TuiModel { acting: true, ..m },
                TuiAction::StartAttach { busid: d.busid, name: d.name },
                false,
            ),
            _ => (m, TuiAction::Nothing, false),
        },
        KeyCommand::Detach => match selected {
            Some(d) if !m.acting => match d.attached_port {
                Some(port) => (TuiModel { acting: true, ..m }, TuiAction::StartDetach { port }, false),
                None => (
                    TuiModel {
                        notification: Some(
                            ("selected device is not attached"@, NotificationKind::Warning),
                        ),
                        ..m
                    },
                    TuiAction::Nothing,
                    true,
                ),
            },
            _ => (m, TuiAction::Nothing, false),
        },
        KeyCommand::Ignore => (m, TuiAction::Nothing, false),
    }
}

/// One step of the interface: the next state, what to do, and whether a new
/// notification was set.
pub open spec fn spec_step(m: TuiModel, event: TuiEvent) -> (TuiModel, TuiAction, bool) {
    match event {
        TuiEvent::NotificationExpired => (TuiModel { notification: None, ..m }, TuiAction::Nothing, false),
        TuiEvent::RefreshFinished(Ok(devices)) => (
            TuiModel {
                devices: devices@,
                selected: selection_after_refresh(m.selected, devices@.len()),
                refreshing: false,
                ..m
            },
            TuiAction::Nothing,
            false,
        ),
        TuiEvent::RefreshFinished(Err(message)) => (
            TuiModel {
                notification: Some((message@, NotificationKind::Error)),
                refreshing: false,
                ..m
            },
            TuiAction::Nothing,
            true,
        ),
        TuiEvent::ActionFinished(result) => {
            let notification = match result {
                Ok(message) => (message@, NotificationKind::Success),
                Err(message) => (message@, NotificationKind::Error),
            };
            if m.refreshing {
                (
                    TuiModel { notification: Some(notification), acting: false, ..m },
                    TuiAction::RefreshSoon,
                    true,
                )
            } else {
                (
                    TuiModel {
                        notification: Some(notification),
                        acting: false,
                        refreshing: true,
                        ..m
                    },
                    TuiAction::StartRefresh,
                    true,
                )
            }
        },
        TuiEvent::RefreshDue => step_refresh(m),
        TuiEvent::Key(key) => step_key(m, spec_key_command(key)),
    }
}

/// The model of an optional notification.
pub open spec fn opt_notification_view(n: Option<Notification>) -> Option<(Seq<char>, NotificationKind)> {
    match n {
        Some(n) => Some(n@),
        None => None,
    }
}

/// The state of the interface: the devices shown, the selected row, the
/// notification, whether details are open, and which background tasks run.
#[derive(Debug)]
pub struct TuiState {
    devices: Vec<UsbDevice>,
    selected: Option<usize>,
    notification: Option<Notification>,
    show_details: bool,
    refreshing: bool,
    acting: bool,
}

impl TuiState {
    pub closed spec fn model(&self) -> TuiModel {
        TuiModel {
            devices: self.devices@,
            selected: self.selected,
            notification: opt_notification_view(self.notification),
            show_details: self.show_details,
            refreshing: self.refreshing,
            acting: self.acting,
        }
    }

    #[verifier::type_invariant]
    spec fn selection_in_range(&self) -> bool {
        self.selected != Some(usize::MAX)
    }

    /// The state at start: no devices, the first row selected, nothing running.
    pub fn new() -> (s: Self)
        ensures
            s.model() == (TuiModel {
                devices: Seq::<UsbDevice>::empty(),
                selected: Some(0),
                notification: None,
                show_details: false,
                refreshing: false,
                acting: false,
            }),
    {
        TuiState {
            devices: Vec::new(),
            selected: Some(0),
            notification: None,
            show_details: false,
            refreshing: false,
            acting: false,
        }
    }

    pub fn devices(&self) -> (r: &Vec<UsbDevice>)
        ensures
            r@ == self.model().devices,
    {
        &self.devices
    }

    pub fn selected(&self) -> (r: Option<usize>)
        ensures
            r == self.model().selected,
    {
        self.selected
    }

    pub fn notification(&self) -> (r: &Option<Notification>)
        ensures
            opt_notification_view(*r) == self.model().notification,
    {
        &self.notification
    }

    pub fn show_details(&self) -> (r: bool)
        ensures
            r == self.model().show_details,
    {
        self.show_details
    }

    pub fn is_refreshing(&self) -> (r: bool)
        ensures
            r == self.model().refreshing,
    {
        self.refreshing
    }

    pub fn is_acting(&self) -> (r: bool)
        ensures
            r == self.model().acting,
    {
        self.acting
    }

    /// The selected device, if the selection is within the list.
    pub fn selected_device(&self) -> (r: Option<&UsbDevice>)
        ensures
            match r {
                Some(d) => spec_selected_device(self.model().devices, self.model().selected)
                    == Some(*d),
                None => spec_selected_device(self.model().devices, self.model().selected) is None,
            },
    {
        selected_device(&self.devices, self.selected)
    }

    /// Applies an event (see [`spec_step`]): returns what to do and whether a
    /// new notification was set.
    pub fn handle_event(&mut self, event: TuiEvent) -> (r: (TuiAction, bool))
        ensures
            (final(self).model(), r.0, r.1) == spec_step(old(self).model(), event),
    {
        proof {
            use_type_invariant(&*self);
        }
        let ghost ev = event;
        match event {
            TuiEvent::NotificationExpired => {
                self.notification = None;
                (TuiAction::Nothing, false)
            },
            TuiEvent::RefreshFinished(Ok(devices)) => {
                let len = devices.len();
                self.selected = if len == 0 {
                    None
                } else {
                    match self.selected {
                        Some(i) => if i < len {
                            Some(i)
                        } else {
                            Some(0)
                        },
                        None => Some(0),
                    }
                };
                self.devices = devices;
                self.refreshing = false;
                (TuiAction::Nothing, false)
            },
            TuiEvent::RefreshFinished(Err(message)) => {
                self.notification = Some(Notification::error(message));
                self.refreshing = false;
                (TuiAction::Nothing, true)
            },
            TuiEvent::ActionFinished(result) => {
                let notification = match result {
                    Ok(message) => Notification::success(message),
                    Err(message) => Notification::error(message),
                };
                self.notification = Some(notification);
                self.acting = false;
                if self.refreshing {
                    (TuiAction::RefreshSoon, true)
                } else {
                    self.refreshing = true;
                    (TuiAction::StartRefresh, true)
                }
            },
            TuiEvent::RefreshDue => self.start_refresh(),
            TuiEvent::Key(key) => self.handle_key(key_command(key)),
        }
    }

    fn start_refresh(&mut self) -> (r: (TuiAction, bool))
        ensures
            (final(self).model(), r.0, r.1) == step_refresh(old(self).model()),
    {
        proof {
            use_type_invariant(&*self);
        }
        if self.refreshing {
            (TuiAction::Nothing, false)
        } else {
            self.refreshing = true;
            (TuiAction::StartRefresh, false)
        }
    }

    fn handle_key(&mut self, command: KeyCommand) -> (r: (TuiAction, bool))
        ensures
            (final(self).model(), r.0, r.1) == step_key(old(self).model(), command),
    {
        proof {
            use_type_invariant(&*self);
        }
        match command {
            KeyCommand::Quit => (TuiAction::Quit, false),
            KeyCommand::Refresh => self.start_refresh(),
            KeyCommand::Next => {
                self.selected = select_next(self.selected, self.devices.len());
                (TuiAction::Nothing, false)
            },
            KeyCommand::Previous => {
                self.selected = select_previous(self.selected, self.devices.len());
                (TuiAction::Nothing, false)
            },
            KeyCommand::CloseDetails => {
                self.show_details = false;
                (TuiAction::Nothing, false)
            },
            KeyCommand::ToggleDetails => {
                self.show_details = !self.show_details;
                (TuiAction::Nothing, false)
            },
            KeyCommand::Bind => {
                if self.acting {
                    return (TuiAction::Nothing, false);
                }
                match selected_device(&self.devices, self.selected) {
                    None => (TuiAction::Nothing, false),
                    Some(d) => {
                        if d.bound {
                            self.notification = Some(
                                Notification::warning("selected device is already bound".to_owned()),
                            );
                            (TuiAction::Nothing, true)
                        } else {
                            let busid = d.busid.clone();
                            let name = d.name.clone();
                            self.acting = true;
                            (TuiAction::StartBind { busid, name }, false)
                        }
                    },
                }
            },
            KeyCommand::Unbind => {
                if self.acting {
                    return (TuiAction::Nothing, false);
                }
                match selected_device(&self.devices, self.selected) {
                    None => (TuiAction::Nothing, false),
                    Some(d) => {
                        let busid = d.busid.clone();
                        let name = d.name.clone();
                        self.acting = true;
                        (TuiAction::StartUnbind { busid, name }, false)
                    },
                }
            },
            KeyCommand::Attach => {
                if self.acting {
                    return (TuiAction::Nothing, false);
                }
                match selected_device(&self.devices, self.selected) {
                    None => (TuiAction::Nothing, false),
                    Some(d) => {
                        let busid = d.busid.clone();
                        let name = d.name.clone();
                        self.acting = true;
                        (TuiAction::StartAttach { busid, name }, false)
                    },
                }
            },
            KeyCommand::Detach => {
                if self.acting {
                    return (TuiAction::Nothing, false);
                }
                match selected_device(&self.devices, self.selected) {
                    None => (TuiAction::Nothing, false),
                    Some(d) => match d.attached_port {
                        Some(port) => {
                            self.acting = true;
                            (TuiAction::StartDetach { port }, false)
                        },
                        None => {
                            self.notification = Some(
                                Notification::warning("selected device is not attached".to_owned()),
                            );
                            (TuiAction::Nothing, true)
                        },
                    },
                }
            },
            KeyCommand::Ignore => (TuiAction::Nothing, false),
        }
    }
}

impl Default for TuiState {
    fn default() -> (s: Self)
        ensures
            s.model() == (TuiModel {
                devices: Seq::<UsbDevice>::empty(),
                selected: Some(0),
                notification: None,
                show_details: false,
                refreshing: false,
                acting: false,
            }),
    {
        TuiState::new()
    }
}

// ---------------------------------------------------------------------------
// Reports of finished actions
// ---------------------------------------------------------------------------
/// `<verb> <busid> (<name>)`, the report of a finished device action.
pub open spec fn spec_action_report(verb: Seq<char>, busid: Seq<char>, name: Seq<char>) -> Seq<char> {
    verb + " "@ + busid + " ("@ + name + ")"@
}

/// `<verb> <busid> (<name>)`, as in `bound 1-2 (Logitech receiver)`.
pub fn action_report(verb: &str, busid: &str, name: &str) -> (r: String)
    ensures
        r@ == spec_action_report(verb@, busid@, name@),
{
    let a = concat(verb, " ");
    let b = concat(a.as_str(), busid);
    let c = concat(b.as_str(), " (");
    let d = concat(c.as_str(), name);
    concat(d.as_str(), ")")
}

/// `detached port <port>`, the report of a finished detach.
pub fn detach_report(port: u16) -> (r: String)
    ensures
        r@ == "detached port "@ + decimal_string(port as nat),
{
    let digits = u16_to_string(port);
    concat("detached port ", digits.as_str())
}

/// What the attach task does once it has listed the server's devices:
/// `Ok(bind_first)` for the first device with `busid`, where `bind_first` says
/// that it is not bound yet, or the message that no listed device has `busid`.
pub fn attach_binds_first(devices: &Vec<UsbDevice>, busid: &str) -> (r: Result<bool, String>)
    ensures
        match r {
            Ok(bind_first) => exists|i: int|
                #![auto]
                is_first_with_busid(devices@, busid@, i) && bind_first == !devices@[i].bound,
            Err(message) => !has_busid(devices@, busid@) && message@ == device_not_found_message(
                busid@,
            ),
        },
{
    match position_of_busid(devices, busid) {
        Some(i) => Ok(!devices[i].bound),
        None => Err(device_not_found(busid)),
    }
}

// ---------------------------------------------------------------------------
// Laws
// ---------------------------------------------------------------------------
/// Moving down and then up returns to the selected row, and so does moving up
/// and then down, in a non-empty table.
pub proof fn law_select_roundtrip(i: usize, len: usize)
    requires
        i < len,
    ensures
        spec_select_previous(spec_select_next(Some(i), len as nat), len as nat) == Some(i),
        spec_select_next(spec_select_previous(Some(i), len as nat), len as nat) == Some(i),
{
    if i + 1 < len {
        assert((i + 1) % (len as int) == i + 1) by (nonlinear_arith)
            requires
                0 <= i + 1 < len,
        ;
    } else {
        assert((i + 1) % (len as int) == 0) by (nonlinear_arith)
            requires
                i + 1 == len,
                len > 0,
        ;
    }
    if i == 0 {
        assert(((len - 1) + 1) % (len as int) == 0) by (nonlinear_arith)
            requires
                len > 0,
        ;
    } else {
        assert(((i - 1) + 1) % (len as int) == i) by (nonlinear_arith)
            requires
                0 < i < len,
        ;
    }
}

/// At most one device action runs at a time: an action starts only when
/// none runs, and from then on one runs.
pub proof fn law_one_action_at_a_time(m: TuiModel, event: TuiEvent)
    ensures
        ({
            let (next, action, _) = spec_step(m, event);
            (action is StartBind || action is StartUnbind || action is StartAttach
                || action is StartDetach) ==> !m.acting && next.acting
        }),
{
}

/// At most one refresh runs at a time: a refresh starts only when none runs,
/// and from then on one runs.
pub proof fn law_one_refresh_at_a_time(m: TuiModel, event: TuiEvent)
    ensures
        ({
            let (next, action, _) = spec_step(m, event);
            action is StartRefresh ==> !m.refreshing && next.refreshing
        }),
{
}

/// `q` quits from any state and changes nothing.
pub proof fn law_q_quits(m: TuiModel)
    ensures
        spec_step(m, TuiEvent::Key(TuiKey::Char('q'))) == (m, TuiAction::Quit, false),
{
}

/// The device list changes only when a refresh brings a new one.
pub proof fn law_devices_change_only_on_refresh(m: TuiModel, event: TuiEvent)
    requires
        !(event matches TuiEvent::RefreshFinished(Ok(_))),
    ensures
        spec_step(m, event).0.devices == m.devices,
{
}

/// After a refresh, or a move down, a non-empty list has a row selected
/// within it; so has a move up from a row within it.
pub proof fn law_selection_within_list(m: TuiModel, event: TuiEvent)
    requires
        event matches TuiEvent::RefreshFinished(Ok(_)) || event == TuiEvent::Key(TuiKey::Down)
            || event == TuiEvent::Key(TuiKey::Char('j')) || ((event == TuiEvent::Key(TuiKey::Up)
            || event == TuiEvent::Key(TuiKey::Char('k'))) && (m.selected matches Some(i) ==> i
            < m.devices.len())),
    ensures
        ({
            let next = spec_step(m, event).0;
            next.devices.len() > 0 ==> (next.selected matches Some(i) && i < next.devices.len())
        }),
{
    match m.selected {
        Some(i) => {
            if m.devices.len() > 0 {
                assert((i + 1) % (m.devices.len() as int) < m.devices.len()) by (nonlinear_arith)
                    requires
                        m.devices.len() > 0,
                ;
            }
        },
        None => {},
    }
}

/// The lines a message wraps to before the box cuts it: each of its lines in
/// chunks of the inner width, an empty line as one empty line.
pub open spec fn wrapped_lines(message: Seq<char>, area: Area) -> Seq<Seq<char>> {
    message_pieces(lines(message), inner_width(area.width as int) as nat).map_values(
        |p: (Seq<char>, bool)| p.0,
    )
}

/// A string holds only ASCII characters.
pub open spec fn is_ascii_text(s: Seq<char>) -> bool {
    forall|i: int| 0 <= i < s.len() ==> (#[trigger] s[i] as u32) < 0x80
}

proof fn lemma_decode_len(b: Seq<u8>)
    requires
        vstd::utf8::valid_utf8(b),
    ensures
        vstd::utf8::decode_utf8(b).len() <= b.len(),
    decreases b.len(),
{
    if b.len() > 0 {
        let rest = vstd::utf8::pop_first_scalar(b);
        assert(1 <= vstd::utf8::length_of_first_scalar(b) <= b.len());
        assert(rest.len() < b.len());
        lemma_decode_len(rest);
    }
}

proof fn lemma_chars_within_bytes(s: Seq<char>)
    ensures
        s.len() <= vstd::utf8::encode_utf8(s).len(),
{
    vstd::utf8::encode_utf8_valid_utf8(s);
    vstd::utf8::encode_utf8_decode_utf8(s);
    lemma_decode_len(vstd::utf8::encode_utf8(s));
}

proof fn lemma_ascii_encode_take(s: Seq<char>, k: int)
    requires
        is_ascii_text(s),
        0 <= k <= s.len(),
    ensures
        vstd::utf8::encode_utf8(s).len() == s.len(),
        vstd::utf8::encode_utf8(s).take(k) == vstd::utf8::encode_utf8(s.take(k)),
    decreases s.len(),
{
    if s.len() > 0 {
        let t = s.drop_first();
        assert(is_ascii_text(t)) by {
            assert forall|i: int| 0 <= i < t.len() implies (#[trigger] t[i] as u32) < 0x80 by {
                assert(t[i] == s[i + 1]);
            }
        }
        assert((s[0] as u32) < 0x80);
        let head = vstd::utf8::encode_scalar(s[0] as u32);
        assert(head.len() == 1);
        if k > 0 {
            lemma_ascii_encode_take(t, k - 1);
            let sk = s.take(k);
            assert(sk.drop_first() =~= t.take(k - 1));
            assert(sk[0] == s[0]);
            assert(vstd::utf8::encode_utf8(sk) == head + vstd::utf8::encode_utf8(sk.drop_first()));
            assert(vstd::utf8::encode_utf8(s).take(k) =~= head + vstd::utf8::encode_utf8(t).take(
                k - 1,
            ));
        } else {
            lemma_ascii_encode_take(t, 0);
            assert(s.take(0) =~= Seq::<char>::empty());
            assert(vstd::utf8::encode_utf8(s).take(0) =~= Seq::<u8>::empty());
        }
    } else {
        assert(s.take(k) =~= s);
        assert(vstd::utf8::encode_utf8(s).take(k) =~= vstd::utf8::encode_utf8(s));
    }
}

/// On ASCII text, cutting to `n` UTF-8 bytes keeps the first `n` characters.
pub proof fn law_truncate_ascii(s: Seq<char>, n: nat)
    requires
        is_ascii_text(s),
    ensures
        truncate_bytes(s, n) == s.take(min(n as int, s.len() as int)),
{
    lemma_ascii_encode_take(s, min(n as int, s.len() as int));
    if n >= s.len() {
        assert(s.take(s.len() as int) =~= s);
    } else {
        vstd::utf8::encode_utf8_decode_utf8(s.take(n as int));
    }
}

/// The width of each chunk of a wrapped line is at most `width`.
proof fn lemma_chunks_width(s: Seq<char>, width: nat)
    ensures
        forall|i: int| 0 <= i < chunks(s, width).len() ==> #[trigger] chunks(s, width)[i].len() <= width,
    decreases s.len(),
{
    if s.len() > 0 && width > 0 && s.len() > width {
        lemma_chunks_width(s.skip(width as int), width);
        let c = chunks(s, width);
        let rest = chunks(s.skip(width as int), width);
        assert forall|i: int| 0 <= i < c.len() implies #[trigger] c[i].len() <= width by {
            if i > 0 {
                assert(c[i] == rest[i - 1]);
            }
        }
    }
}

proof fn lemma_pieces_width(ls: Seq<Seq<char>>, width: nat)
    ensures
        forall|i: int|
            0 <= i < message_pieces(ls, width).len() ==> #[trigger] message_pieces(ls, width)[i].0.len()
                <= width,
    decreases ls.len(),
{
    if ls.len() > 0 {
        lemma_pieces_width(ls.drop_last(), width);
        lemma_chunks_width(ls.last(), width);
        let prev = message_pieces(ls.drop_last(), width);
        let lp = line_pieces(ls.last(), width);
        let all = message_pieces(ls, width);
        assert forall|i: int| 0 <= i < all.len() implies #[trigger] all[i].0.len() <= width by {
            if i >= prev.len() {
                assert(all[i] == lp[i - prev.len()]);
                if ls.last().len() > 0 {
                    assert(lp[i - prev.len()].0 == chunks(ls.last(), width)[i - prev.len()]);
                }
            }
        }
    }
}

/// What the box shows of a message: where the wrapped lines fit, the first
/// of them up to the inner height; where they do not, exactly the inner
/// height of lines, the last cut to the inner width less 3 (in UTF-8 bytes;
/// in characters for ASCII text, see [`law_truncate_ascii`]) and marked with
/// `...`. Each shown line fits the inner width.
pub proof fn law_notification_lines(message: Seq<char>, area: Area)
    requires
        notification_lines_fit(message, area),
        area.width >= 5,
    ensures
        ({
            let r = spec_notification_lines(message, area);
            let w = wrapped_lines(message, area);
            let ml = max(sat_sub(area.height as int, 2), 1);
            let cw = inner_width(area.width as int);
            &&& !notification_truncated(message, area) ==> r == w.take(min(ml, w.len() as int))
            &&& notification_truncated(message, area) ==> {
                &&& r.len() == ml
                &&& r.take(ml - 1) == w.take(ml - 1)
                &&& r[ml - 1] == truncate_bytes(w[ml - 1], (cw - 3) as nat) + "..."@
            }
            &&& forall|i: int| 0 <= i < r.len() ==> #[trigger] r[i].len() <= cw
        }),
{
    let cw = inner_width(area.width as int);
    let ml = max(sat_sub(area.height as int, 2), 1);
    let pieces = message_pieces(lines(message), cw as nat);
    let w = wrapped_lines(message, area);
    let shown = shown_pieces(message, area);
    let r = spec_notification_lines(message, area);
    lemma_pieces_width(lines(message), cw as nat);
    assert(shown =~= w.take(min(ml, w.len() as int)));
    assert forall|i: int| 0 <= i < shown.len() implies #[trigger] shown[i].len() <= cw by {
        assert(shown[i] == pieces[i].0);
    }
    reveal_strlit("...");
    if notification_truncated(message, area) {
        let k = choose|k: int| ml <= k < pieces.len() && #[trigger] pieces[k].1;
        assert(pieces.len() > ml);
        assert(shown.len() == ml);
        let last = shown.last();
        let n = (cw - 3) as nat;
        let bytes = vstd::utf8::encode_utf8(last);
        let cut = truncate_bytes(last, n);
        if n >= bytes.len() {
            lemma_chars_within_bytes(last);
        } else {
            vstd::utf8::encode_utf8_valid_utf8(last);
            vstd::utf8::valid_utf8_split(bytes, n as int);
            assert(bytes.take(n as int) =~= bytes.subrange(0, n as int));
            lemma_decode_len(bytes.take(n as int));
        }
        assert(cut.len() <= n);
        assert(r =~= shown.update(ml - 1, cut + "..."@));
        assert(r.take(ml - 1) =~= w.take(ml - 1));
        assert forall|i: int| 0 <= i < r.len() implies #[trigger] r[i].len() <= cw by {
            if i < ml - 1 {
                assert(r[i] == shown[i]);
            }
        }
    }
}

/// A refresh that brings a list shows that list and keeps the selected row
/// where it is still within the list; otherwise it selects the first row, or
/// nothing in an empty list. It ends the refresh and changes nothing else.
pub proof fn law_refresh_keeps_selection(m: TuiModel, devices: Vec<UsbDevice>)
    ensures
        ({
            let (next, action, notified) = spec_step(m, TuiEvent::RefreshFinished(Ok(devices)));
            &&& next.devices == devices@
            &&& (m.selected matches Some(i) && i < devices@.len()) ==> next.selected == m.selected
            &&& devices@.len() == 0 ==> next.selected is None
            &&& (devices@.len() > 0 && !(m.selected matches Some(i) && i < devices@.len()))
                ==> next.selected == Some(0usize)
            &&& !next.refreshing
            &&& next.notification == m.notification && next.show_details == m.show_details
                && next.acting == m.acting
            &&& action == TuiAction::Nothing && !notified
        }),
{
}

/// A notification never takes more lines than its box has inside.
pub proof fn law_notification_fits_box(message: Seq<char>, area: Area)
    ensures
        spec_notification_lines(message, area).len() <= max(sat_sub(area.height as int, 2), 1),
{
}


/// The lines of a notification, or `None` where cutting the last line would
/// split a character (where [`notification_lines`] may not be called).
pub fn try_notification_lines(message: &str, area: Area) -> (r: Option<Vec<String>>)
    ensures
        match r {
            Some(v) => notification_lines_fit(message@, area) && v@.map_values(|s: String| s@)
                == spec_notification_lines(message@, area),
            None => !notification_lines_fit(message@, area),
        },
{
    let content_width = max_u16(sat_sub_u16(area.width, 2), 1);
    let n = sat_sub_u16(content_width, 3) as usize;
    let (out, truncated) = shown_lines(message, area);
    if truncated && out.len() > 0 {
        let last = out[out.len() - 1].as_str();
        if !(n >= last.as_bytes().len() || last.is_char_boundary(n)) {
            return None;
        }
    }
    Some(notification_lines(message, area))
}

} // verus!
