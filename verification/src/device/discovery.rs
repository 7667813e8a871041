//! Connection-device discovery for the device-settings dialog.
//!
//! Serial ports come from the operating system's port enumeration; on Windows
//! the printer queues and USB printer instances that a vinyl cutter shows up
//! as are found by system queries. This module turns what those report into
//! the two lists the dialog offers: port names, and USB device descriptions
//! (sorted, without duplicates).

use vstd::prelude::*;
use crate::text::{
    lossy_utf8, utf8_lossy, nonempty_trimmed_lines, trimmed_lines, sorted_unique, string_views,
    strictly_sorted, chars_of, push_all, push_str, string_of, captured,
};

verus! {

/// What the port enumeration reports of a USB serial port.
pub struct UsbPortInfo {
    pub product: Option<String>,
    pub serial_number: Option<String>,
}

/// One port reported by the port enumeration.
pub struct PortInfo {
    pub port_name: String,
    /// Present when the port is a USB port.
    pub usb: Option<UsbPortInfo>,
}

/// The non-empty trimmed lines of a query's output; none when it failed.
pub open spec fn output_lines(stdout: Option<Seq<u8>>) -> Seq<Seq<char>> {
    match stdout {
        Some(b) => trimmed_lines(lossy_utf8(b)),
        None => seq![],
    }
}

/// The non-empty trimmed lines of a query's output (printer queues, each
/// `Printer Queue: <name> [<port>]`); none when the query failed.
pub fn windows_usb_printer_queues(stdout: Option<Vec<u8>>) -> (r: Vec<String>)
    ensures
        string_views(r@) == output_lines(captured(stdout)),
{
    match stdout {
        Some(b) => {
            let s: String = utf8_lossy(b.as_slice());
            nonempty_trimmed_lines(s.as_str())
        },
        None => Vec::new(),
    }
}

/// The USB printer entries found by three queries (queues of the cutter's
/// VID/PID, USBPRINT devices, generic USB printer queues), merged, sorted and
/// without duplicates.
pub fn windows_usbprint_paths(
    by_vid_pid: Option<Vec<u8>>,
    pnp: Option<Vec<u8>>,
    generic: Option<Vec<u8>>,
) -> (r: Vec<String>)
    ensures
        strictly_sorted(string_views(r@)),
        forall|x: Seq<char>| #[trigger]
            string_views(r@).contains(x) <==> (output_lines(captured(by_vid_pid)) + output_lines(
                captured(pnp),
            ) + output_lines(captured(generic))).contains(x),
{
    let ghost a = output_lines(captured(by_vid_pid));
    let ghost b = output_lines(captured(pnp));
    let ghost c = output_lines(captured(generic));
    let mut rows: Vec<String> = windows_usb_printer_queues(by_vid_pid);
    let mut pnp_rows: Vec<String> = windows_usb_printer_queues(pnp);
    let mut generic_rows: Vec<String> = windows_usb_printer_queues(generic);
    rows.append(&mut pnp_rows);
    rows.append(&mut generic_rows);
    assert(string_views(rows@) =~= a + b + c);
    sorted_unique(&rows)
}

/// Whether an optional text is present and not empty.
pub open spec fn nonempty_text(o: Option<String>) -> bool {
    o is Some && o->0@.len() > 0
}

/// The description of a USB port: its name, then its product and its serial
/// number (`SN:<serial>`) where they are reported and not empty, joined by
/// ` | `.
pub open spec fn usb_port_description(name: Seq<char>, info: UsbPortInfo) -> Seq<char> {
    name + (if nonempty_text(info.product) {
        " | "@ + info.product->0@
    } else {
        seq![]
    }) + (if nonempty_text(info.serial_number) {
        " | SN:"@ + info.serial_number->0@
    } else {
        seq![]
    })
}

/// The description of a USB port.
pub fn describe_usb_port(name: &str, info: &UsbPortInfo) -> (r: String)
    ensures
        r@ == usb_port_description(name@, *info),
{
    let mut v: Vec<char> = chars_of(name);
    match &info.product {
        Some(p) => {
            let pc: Vec<char> = chars_of(p.as_str());
            if pc.len() > 0 {
                push_str(&mut v, " | ");
                push_all(&mut v, &pc);
            }
        },
        None => {},
    }
    match &info.serial_number {
        Some(s) => {
            let sc: Vec<char> = chars_of(s.as_str());
            if sc.len() > 0 {
                push_str(&mut v, " | SN:");
                push_all(&mut v, &sc);
            }
        },
        None => {},
    }
    string_of(&v)
}

/// The names of the ports, in order.
pub open spec fn port_names(ports: Seq<PortInfo>) -> Seq<Seq<char>> {
    ports.map_values(|p: PortInfo| p.port_name@)
}

/// The descriptions of the USB ports among `ports`, in order.
pub open spec fn usb_descriptions(ports: Seq<PortInfo>) -> Seq<Seq<char>>
    decreases ports.len(),
{
    if ports.len() == 0 {
        seq![]
    } else {
        let p = ports.last();
        match p.usb {
            Some(info) => usb_descriptions(ports.drop_last()).push(
                usb_port_description(p.port_name@, info),
            ),
            None => usb_descriptions(ports.drop_last()),
        }
    }
}

/// The two lists of the device-settings dialog: the names of all ports, in
/// the order reported, and the USB devices (the USB ports' descriptions, the
/// printer queues and the USB printer entries), sorted and without
/// duplicates.
pub fn scan_connection_devices(
    ports: &Vec<PortInfo>,
    queues: Vec<String>,
    usbprint: Vec<String>,
) -> (r: (Vec<String>, Vec<String>))
    ensures
        string_views(r.0@) == port_names(ports@),
        strictly_sorted(string_views(r.1@)),
        forall|x: Seq<char>| #[trigger]
            string_views(r.1@).contains(x) <==> (usb_descriptions(ports@) + string_views(queues@)
                + string_views(usbprint@)).contains(x),
{
    let mut available: Vec<String> = Vec::new();
    let mut usb_devices: Vec<String> = Vec::new();
    let mut k: usize = 0;
    while k < ports.len()
        invariant
            k <= ports@.len(),
            string_views(available@) == port_names(ports@.take(k as int)),
            string_views(usb_devices@) == usb_descriptions(ports@.take(k as int)),
        decreases ports@.len() - k,
    {
        let p: &PortInfo = &ports[k];
        let ghost before_names = string_views(available@);
        let ghost before_usb = string_views(usb_devices@);
        assert(ports@.take(k + 1).drop_last() =~= ports@.take(k as int));
        assert(ports@.take(k + 1).last() == *p);
        available.push(p.port_name.clone());
        assert(string_views(available@) =~= before_names.push(p.port_name@));
        assert(port_names(ports@.take(k + 1)) =~= port_names(ports@.take(k as int)).push(
            p.port_name@,
        ));
        match &p.usb {
            Some(info) => {
                let d: String = describe_usb_port(p.port_name.as_str(), info);
                usb_devices.push(d);
                assert(string_views(usb_devices@) =~= before_usb.push(d@));
            },
            None => {},
        }
        k = k + 1;
    }
    assert(ports@.take(ports@.len() as int) =~= ports@);
    let ghost descs = string_views(usb_devices@);
    let mut q: Vec<String> = queues;
    let mut u: Vec<String> = usbprint;
    let ghost qv = string_views(q@);
    let ghost uv = string_views(u@);
    usb_devices.append(&mut q);
    usb_devices.append(&mut u);
    assert(string_views(usb_devices@) =~= descs + qv + uv);
    let sorted: Vec<String> = sorted_unique(&usb_devices);
    (available, sorted)
}

} // verus!
