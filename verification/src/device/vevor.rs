//! Vevor Smart 1 vinyl cutter: target selection and job planning.
//!
//! The cutter speaks standard HPGL but is reached as a USB printer: a file
//! such as `/dev/usb/lp0`, a raw Windows printer queue, or a USBPRINT device.
//! A target is chosen from a user-facing string (`Printer Queue: <name> [..]`,
//! `USB PnP: <instance> | <name>`, a device path, or a serial port).

use vstd::prelude::*;
use vstd::utf8::*;
use vstd::string::*;
use crate::text::{
    after_first, before_first, before_first_exec, char_of_digit, chars_of, contains,
    contains_exec, digit_char, push_all, push_str, split_once_exec, starts_with,
    starts_with_exec, string_of, trim, trim_chars, trimmed_lines, first_nonempty_trimmed_line,
    opt_view, lossy_utf8, utf8_lossy, captured,
};
use crate::device::vevor_usb_protocol::{
    generate_eject_command, generate_hpgl_message, generate_prepare_job_with_size,
    generate_stream_reset_command, prepare_with_size_payload, push_bytes, text_message,
};
use crate::device::job::{chunk, chunk_count, percent, progress_percent, split_chunks};

verus! {

// ---------------------------------------------------------------------------
// Case mapping (std)
// ---------------------------------------------------------------------------

/// The lower-case mapping of a string, as `str::to_lowercase` computes it
/// (Unicode `Lowercase_Mapping`).
pub uninterp spec fn lowercase(s: Seq<char>) -> Seq<char>;

/// The upper-case mapping of a string, as `str::to_uppercase` computes it
/// (Unicode `Uppercase_Mapping`).
pub uninterp spec fn uppercase(s: Seq<char>) -> Seq<char>;

/// `str::to_lowercase`.
#[verifier::external_body]
fn to_lowercase(s: &str) -> (r: String)
    ensures
        r@ == lowercase(s@),
{
    s.to_lowercase()
}

/// `str::to_uppercase`.
#[verifier::external_body]
fn to_uppercase(s: &str) -> (r: String)
    ensures
        r@ == uppercase(s@),
{
    s.to_uppercase()
}

// ---------------------------------------------------------------------------
// Device paths
// ---------------------------------------------------------------------------

/// A lower-cased path names a USB printer-class device.
pub open spec fn usb_printer_pattern(p: Seq<char>) -> bool {
    ||| contains(p, "/usb/lp"@)
    ||| contains(p, "lpt"@)
    ||| starts_with(p, "\\\\.\\usb"@)
    ||| contains(p, "usb001"@)
    ||| contains(p, "usb002"@)
}

/// Whether an already lower-cased path names a USB printer-class device
/// (`/dev/usb/lp0`, `LPT1`, `\\.\USB001`, ...).
pub fn lowered_path_is_usb_printer(p: &str) -> (r: bool)
    ensures
        r == usb_printer_pattern(p@),
{
    let s: Vec<char> = chars_of(p);
    let a: Vec<char> = chars_of("/usb/lp");
    let b: Vec<char> = chars_of("lpt");
    let c: Vec<char> = chars_of("\\\\.\\usb");
    let d: Vec<char> = chars_of("usb001");
    let e: Vec<char> = chars_of("usb002");
    contains_exec(&s, &a) || contains_exec(&s, &b) || starts_with_exec(&s, &c) || contains_exec(
        &s,
        &d,
    ) || contains_exec(&s, &e)
}

/// Whether a path names a USB printer-class device, compared without regard
/// to case.
pub fn is_usb_printer_path(path: &str) -> (r: bool)
    ensures
        r == usb_printer_pattern(lowercase(path@)),
{
    let p: String = to_lowercase(path);
    lowered_path_is_usb_printer(p.as_str())
}

/// An ASCII decimal digit byte.
pub open spec fn is_digit_byte(b: u8) -> bool {
    0x30 <= b <= 0x39
}

/// `USB` followed by three digits at byte `i`.
pub open spec fn usb_token_at(b: Seq<u8>, i: int) -> bool {
    &&& 0 <= i
    &&& i + 6 <= b.len()
    &&& b[i] == 0x55 && b[i + 1] == 0x53 && b[i + 2] == 0x42
    &&& is_digit_byte(b[i + 3]) && is_digit_byte(b[i + 4]) && is_digit_byte(b[i + 5])
}

/// The first start position `>= i` of a token that the search visits: only
/// positions `i` with `i + 6 < b.len()` are tried.
pub open spec fn first_usb_token(b: Seq<u8>, i: int) -> Option<int>
    decreases b.len() - i,
{
    if i < 0 || i + 6 >= b.len() {
        None
    } else if usb_token_at(b, i) {
        Some(i)
    } else {
        first_usb_token(b, i + 1)
    }
}

/// The token `USBnnn` found in an upper-cased string.
pub open spec fn usb_token(up: Seq<char>) -> Option<Seq<char>> {
    let b = encode_utf8(up);
    match first_usb_token(b, 0) {
        Some(i) => Some(
            seq![
                'U',
                'S',
                'B',
                digit_char((b[i + 3] - 0x30) as nat),
                digit_char((b[i + 4] - 0x30) as nat),
                digit_char((b[i + 5] - 0x30) as nat),
            ],
        ),
        None => None,
    }
}

proof fn lemma_first_usb_token(b: Seq<u8>, i: int)
    ensures
        first_usb_token(b, i) matches Some(j) ==> i <= j && usb_token_at(b, j) && j + 6 < b.len(),
    decreases b.len() - i,
{
    if !(i < 0 || i + 6 >= b.len()) && !usb_token_at(b, i) {
        lemma_first_usb_token(b, i + 1);
    }
}

/// Finds `USB` followed by three digits in an upper-cased string.
pub fn find_usb_port_token(up: &str) -> (r: Option<String>)
    ensures
        match (r, usb_token(up@)) {
            (Some(t), Some(u)) => t@ == u,
            (None, None) => true,
            _ => false,
        },
{
    let bytes: &[u8] = up.as_bytes();
    let ghost b = encode_utf8(up@);
    let n: usize = bytes.len();
    let stop: usize = if n >= 6 {
        n - 6
    } else {
        0
    };
    proof {
        lemma_first_usb_token(b, 0);
    }
    let mut i: usize = 0;
    while i < stop
        invariant
            b == encode_utf8(up@),
            bytes@ == b,
            n == b.len(),
            stop == if n >= 6 {
                n - 6
            } else {
                0
            },
            i <= stop,
            first_usb_token(b, 0) == first_usb_token(b, i as int),
        decreases stop - i,
    {
        if bytes[i] == 0x55 && bytes[i + 1] == 0x53 && bytes[i + 2] == 0x42 && 0x30 <= bytes[i + 3]
            && bytes[i + 3] <= 0x39 && 0x30 <= bytes[i + 4] && bytes[i + 4] <= 0x39 && 0x30
            <= bytes[i + 5] && bytes[i + 5] <= 0x39 {
            let mut t: Vec<char> = Vec::new();
            t.push('U');
            t.push('S');
            t.push('B');
            t.push(char_of_digit((bytes[i + 3] - 0x30) as u32));
            t.push(char_of_digit((bytes[i + 4] - 0x30) as u32));
            t.push(char_of_digit((bytes[i + 5] - 0x30) as u32));
            let s: String = string_of(&t);
            assert(usb_token_at(b, i as int));
            assert(first_usb_token(b, i as int) == Some(i as int));
            assert(t@ =~= usb_token(up@).unwrap());
            return Some(s);
        }
        i = i + 1;
    }
    assert(first_usb_token(b, i as int) is None);
    None
}

/// Extracts a `USBnnn` port token from a device path, compared without regard
/// to case; the token is returned in upper case.
pub fn extract_usb_port_token(path: &str) -> (r: Option<String>)
    ensures
        match (r, usb_token(uppercase(path@))) {
            (Some(t), Some(u)) => t@ == u,
            (None, None) => true,
            _ => false,
        },
{
    let up: String = to_uppercase(path);
    find_usb_port_token(up.as_str())
}

/// The name in a `Printer Queue: <name> [<port>]` target.
pub open spec fn queue_name_of(path: Seq<char>) -> Option<Seq<char>> {
    let p = trim(path);
    let pref = "Printer Queue: "@;
    if !starts_with(p, pref) {
        None
    } else {
        let name = trim(before_first(p.skip(pref.len() as int), "["@));
        if name.len() == 0 {
            None
        } else {
            Some(name)
        }
    }
}

/// Parses the queue name from a `Printer Queue: <name> [<port>]` target.
pub fn parse_printer_queue_name(path: &str) -> (r: Option<String>)
    ensures
        match (r, queue_name_of(path@)) {
            (Some(a), Some(b)) => a@ == b,
            (None, None) => true,
            _ => false,
        },
{
    let raw: Vec<char> = chars_of(path);
    let p: Vec<char> = trim_chars(&raw);
    let pref: Vec<char> = chars_of("Printer Queue: ");
    if !starts_with_exec(&p, &pref) {
        return None;
    }
    let rest: Vec<char> = crate::text::slice_chars(&p, pref.len(), p.len());
    assert(rest@ =~= p@.skip(pref@.len() as int));
    let bracket: Vec<char> = chars_of("[");
    let head: Vec<char> = before_first_exec(&rest, &bracket);
    let name: Vec<char> = trim_chars(&head);
    if name.len() == 0 {
        None
    } else {
        Some(string_of(&name))
    }
}

/// The instance id in a `USB PnP: <instance> | <name>` target.
pub open spec fn pnp_instance_of(path: Seq<char>) -> Option<Seq<char>> {
    let p = trim(path);
    let pref = "USB PnP: "@;
    if !starts_with(p, pref) {
        None
    } else {
        let inst = trim(before_first(p.skip(pref.len() as int), " | "@));
        if inst.len() == 0 {
            None
        } else {
            Some(inst)
        }
    }
}

/// Parses the instance id from a `USB PnP: <instance> | <name>` target.
pub fn parse_usb_pnp_instance(path: &str) -> (r: Option<String>)
    ensures
        match (r, pnp_instance_of(path@)) {
            (Some(a), Some(b)) => a@ == b,
            (None, None) => true,
            _ => false,
        },
{
    let raw: Vec<char> = chars_of(path);
    let p: Vec<char> = trim_chars(&raw);
    let pref: Vec<char> = chars_of("USB PnP: ");
    if !starts_with_exec(&p, &pref) {
        return None;
    }
    let rest: Vec<char> = crate::text::slice_chars(&p, pref.len(), p.len());
    assert(rest@ =~= p@.skip(pref@.len() as int));
    let sep: Vec<char> = chars_of(" | ");
    let head: Vec<char> = before_first_exec(&rest, &sep);
    let inst: Vec<char> = trim_chars(&head);
    if inst.len() == 0 {
        None
    } else {
        Some(string_of(&inst))
    }
}

// ---------------------------------------------------------------------------
// Automatic target detection
// ---------------------------------------------------------------------------

/// The target described by a `<instance>||<friendly name>` device line.
pub open spec fn pnp_description(joined: Seq<char>) -> Option<Seq<char>> {
    let inst = trim(before_first(joined, "||"@));
    let friendly = match after_first(joined, "||"@) {
        Some(a) => trim(a),
        None => seq![],
    };
    match usb_token(uppercase(inst)) {
        Some(tok) => Some("USB Path: \\\\.\\"@ + tok),
        None => if inst.len() > 0 {
            if friendly.len() == 0 {
                Some("USB PnP: "@ + inst)
            } else {
                Some("USB PnP: "@ + inst + " | "@ + friendly)
            }
        } else {
            None
        },
    }
}

/// Turns a `<instance>||<friendly name>` device line into a target: a direct
/// `USB Path: \\.\USBnnn` when the instance holds a port token, otherwise a
/// `USB PnP: ...` target.
pub fn describe_pnp_device(joined: &str) -> (r: Option<String>)
    ensures
        match (r, pnp_description(joined@)) {
            (Some(a), Some(b)) => a@ == b,
            (None, None) => true,
            _ => false,
        },
{
    let s: Vec<char> = chars_of(joined);
    let sep: Vec<char> = chars_of("||");
    let (first, second) = split_once_exec(&s, &sep);
    let inst: Vec<char> = trim_chars(&first);
    let friendly: Vec<char> = match second {
        Some(a) => trim_chars(&a),
        None => Vec::new(),
    };
    let inst_s: String = string_of(&inst);
    match extract_usb_port_token(inst_s.as_str()) {
        Some(tok) => {
            let mut out: Vec<char> = Vec::new();
            push_str(&mut out, "USB Path: \\\\.\\");
            let t: Vec<char> = chars_of(tok.as_str());
            push_all(&mut out, &t);
            Some(string_of(&out))
        },
        None => {
            if inst.len() > 0 {
                let mut out: Vec<char> = Vec::new();
                push_str(&mut out, "USB PnP: ");
                push_all(&mut out, &inst);
                if friendly.len() > 0 {
                    push_str(&mut out, " | ");
                    push_all(&mut out, &friendly);
                }
                Some(string_of(&out))
            } else {
                None
            }
        },
    }
}

/// The target chosen from the outputs of the device queries: the first
/// non-empty line of the first printer-queue query that has one, otherwise
/// the description of the first line of the PnP query. Outputs are decoded
/// with invalid UTF-8 replaced.
pub open spec fn detected_target(queues: Seq<Option<Seq<u8>>>, pnp: Option<Seq<u8>>) -> Option<
    Seq<char>,
>
    decreases queues.len(),
{
    if queues.len() == 0 {
        match pnp {
            Some(t) => if trimmed_lines(lossy_utf8(t)).len() > 0 {
                pnp_description(trimmed_lines(lossy_utf8(t))[0])
            } else {
                None
            },
            None => None,
        }
    } else {
        match queues[0] {
            Some(t) => if trimmed_lines(lossy_utf8(t)).len() > 0 {
                Some(trimmed_lines(lossy_utf8(t))[0])
            } else {
                detected_target(queues.drop_first(), pnp)
            },
            None => detected_target(queues.drop_first(), pnp),
        }
    }
}

/// Chooses the cutter target from the captured standard output of the
/// detection queries (`None` for a query that failed), in the order they are
/// tried: the printer-queue queries, then the PnP device query.
pub fn auto_detect_windows_target(
    queue_outputs: &Vec<Option<Vec<u8>>>,
    pnp_output: &Option<Vec<u8>>,
) -> (r: Option<String>)
    ensures
        match (
            r,
            detected_target(
                queue_outputs@.map_values(|o: Option<Vec<u8>>| captured(o)),
                captured(*pnp_output),
            ),
        ) {
            (Some(a), Some(b)) => a@ == b,
            (None, None) => true,
            _ => false,
        },
{
    let ghost qs = queue_outputs@.map_values(|o: Option<Vec<u8>>| captured(o));
    let mut k: usize = 0;
    assert(qs.skip(0) =~= qs);
    while k < queue_outputs.len()
        invariant
            k <= queue_outputs@.len(),
            qs == queue_outputs@.map_values(|o: Option<Vec<u8>>| captured(o)),
            detected_target(qs, captured(*pnp_output)) == detected_target(
                qs.skip(k as int),
                captured(*pnp_output),
            ),
        decreases queue_outputs@.len() - k,
    {
        assert(qs.skip(k as int).drop_first() =~= qs.skip(k + 1));
        assert(qs.skip(k as int)[0] == captured(queue_outputs@[k as int]));
        match &queue_outputs[k] {
            Some(bytes) => {
                let text: String = utf8_lossy(bytes.as_slice());
                match first_nonempty_trimmed_line(text.as_str()) {
                    Some(line) => {
                        return Some(line);
                    },
                    None => {},
                }
            },
            None => {},
        }
        k = k + 1;
    }
    assert(qs.skip(k as int) =~= Seq::<Option<Seq<u8>>>::empty());
    match pnp_output {
        Some(bytes) => {
            let text: String = utf8_lossy(bytes.as_slice());
            match first_nonempty_trimmed_line(text.as_str()) {
                Some(line) => describe_pnp_device(line.as_str()),
                None => None,
            }
        },
        None => None,
    }
}

// ---------------------------------------------------------------------------
// Connecting
// ---------------------------------------------------------------------------

/// One way of reaching the cutter, tried in turn when connecting to a
/// target until one works.
#[derive(Debug, Clone, PartialEq, Eq)]
pub enum ConnectStep {
    /// Write raw jobs to the named printer queue.
    PrinterQueue(String),
    /// Look up the printer queue of the cutter's USB device.
    QueueForDevice,
    /// Look up the USBPRINT interface path of the cutter's USB device.
    InterfaceForDevice,
    /// Look up the printer queue bound to the USB port with this token.
    QueueForPort(String),
    /// Open the target as a file; if that fails, open `alt` when given.
    /// This is the last step: its failure ends the attempt.
    OpenFile { alt: Option<String> },
    /// Open the target as a serial port (no flow control).
    OpenSerial,
}

/// The text of a connection step.
pub enum StepModel {
    PrinterQueue(Seq<char>),
    QueueForDevice,
    InterfaceForDevice,
    QueueForPort(Seq<char>),
    OpenFile(Option<Seq<char>>),
    OpenSerial,
}

/// The text of a connection step.
pub open spec fn step_view(s: ConnectStep) -> StepModel {
    match s {
        ConnectStep::PrinterQueue(q) => StepModel::PrinterQueue(q@),
        ConnectStep::QueueForDevice => StepModel::QueueForDevice,
        ConnectStep::InterfaceForDevice => StepModel::InterfaceForDevice,
        ConnectStep::QueueForPort(t) => StepModel::QueueForPort(t@),
        ConnectStep::OpenFile { alt } => StepModel::OpenFile(opt_view(alt)),
        ConnectStep::OpenSerial => StepModel::OpenSerial,
    }
}

/// The steps for reaching the target `path`. Where printer queues exist
/// (`queues_available`): a named queue, then the device lookups for a PnP
/// target, then the queue of a USB port token. Last, a USB printer path is
/// opened as a file (on a system with printer queues, also as
/// `\\.\<token>`), and anything else as a serial port.
pub open spec fn connect_steps(path: Seq<char>, queues_available: bool) -> Seq<StepModel> {
    let token = usb_token(uppercase(path));
    let queue_steps: Seq<StepModel> = if queues_available {
        (match queue_name_of(path) {
            Some(q) => seq![StepModel::PrinterQueue(q)],
            None => seq![],
        }) + (if pnp_instance_of(path) is Some {
            seq![StepModel::QueueForDevice, StepModel::InterfaceForDevice]
        } else {
            seq![]
        }) + (match token {
            Some(t) => seq![StepModel::QueueForPort(t)],
            None => seq![],
        })
    } else {
        seq![]
    };
    let last = if usb_printer_pattern(lowercase(path)) {
        StepModel::OpenFile(
            if queues_available {
                match token {
                    Some(t) => Some("\\\\.\\"@ + t),
                    None => None,
                }
            } else {
                None
            },
        )
    } else {
        StepModel::OpenSerial
    };
    queue_steps.push(last)
}

/// Plans how to reach the target `path`, as [`connect_steps`] describes.
pub fn connect_plan(path: &str, queues_available: bool) -> (r: Vec<ConnectStep>)
    ensures
        r@.map_values(|s: ConnectStep| step_view(s)) == connect_steps(path@, queues_available),
{
    let mut steps: Vec<ConnectStep> = Vec::new();
    let token: Option<String> = extract_usb_port_token(path);
    if queues_available {
        match parse_printer_queue_name(path) {
            Some(q) => steps.push(ConnectStep::PrinterQueue(q)),
            None => {},
        }
        match parse_usb_pnp_instance(path) {
            Some(_) => {
                steps.push(ConnectStep::QueueForDevice);
                steps.push(ConnectStep::InterfaceForDevice);
            },
            None => {},
        }
        match &token {
            Some(t) => steps.push(ConnectStep::QueueForPort(t.clone())),
            None => {},
        }
    }
    let ghost head = steps@.map_values(|s: ConnectStep| step_view(s));
    let last: ConnectStep = if is_usb_printer_path(path) {
        let alt: Option<String> = if queues_available {
            match &token {
                Some(t) => {
                    let mut v: Vec<char> = Vec::new();
                    push_str(&mut v, "\\\\.\\");
                    let tc: Vec<char> = chars_of(t.as_str());
                    push_all(&mut v, &tc);
                    Some(string_of(&v))
                },
                None => None,
            }
        } else {
            None
        };
        ConnectStep::OpenFile { alt }
    } else {
        ConnectStep::OpenSerial
    };
    steps.push(last);
    assert(steps@.map_values(|s: ConnectStep| step_view(s)) =~= head.push(step_view(last)));
    assert(head =~= connect_steps(path@, queues_available).drop_last());
    steps
}

/// How a connection is attempted. Without printer queues there is one step:
/// a USB printer path is opened as a file, anything else as a serial port.
/// With printer queues the lookups come first, each tried only when the path
/// allows it: a named queue first, then the device lookups of a PnP target
/// (queue, then interface), then, for any path with a USB port token, the
/// queue of that port, just before the last step; the last step opens a USB
/// printer path as a file, with `\\.\<token>` as the alternative.
pub proof fn lemma_connect_steps_order(path: Seq<char>, queues_available: bool)
    ensures
        ({
            let steps = connect_steps(path, queues_available);
            let token = usb_token(uppercase(path));
            let named: int = if queue_name_of(path) is Some { 1 } else { 0 };
            let pnp: int = if pnp_instance_of(path) is Some { 2 } else { 0 };
            let port: int = if token is Some { 1 } else { 0 };
            &&& !queues_available ==> steps.len() == 1
            &&& queues_available ==> steps.len() == named + pnp + port + 1
            &&& (steps.last() is OpenFile) == usb_printer_pattern(lowercase(path))
            &&& (steps.last() is OpenSerial) == !usb_printer_pattern(lowercase(path))
            &&& !queues_available ==> steps.last() == StepModel::OpenFile(None)
                || steps.last() == StepModel::OpenSerial
            &&& queues_available ==> (queue_name_of(path) matches Some(q) ==> steps[0]
                == StepModel::PrinterQueue(q))
            &&& queues_available && pnp_instance_of(path) is Some ==> steps[named]
                == StepModel::QueueForDevice && steps[named + 1] == StepModel::InterfaceForDevice
            &&& queues_available ==> (token matches Some(t) ==> steps[steps.len() - 2]
                == StepModel::QueueForPort(t))
            &&& queues_available && usb_printer_pattern(lowercase(path)) ==> (token matches Some(
                t,
            ) ==> steps.last() == StepModel::OpenFile(Some("\\\\.\\"@ + t)))
        }),
{
}

// ---------------------------------------------------------------------------
// Printer queue and USBPRINT lookups
// ---------------------------------------------------------------------------

/// The first non-empty trimmed line of a lookup's output; none when the
/// lookup failed or printed nothing.
pub open spec fn first_line_of(stdout: Option<Seq<u8>>) -> Option<Seq<char>> {
    match stdout {
        Some(b) => if trimmed_lines(lossy_utf8(b)).len() > 0 {
            Some(trimmed_lines(lossy_utf8(b))[0])
        } else {
            None
        },
        None => None,
    }
}

/// The answer of a printer-queue lookup: the first non-empty line of its
/// output, decoded with invalid UTF-8 replaced.
pub fn first_output_line(stdout: &Option<Vec<u8>>) -> (r: Option<String>)
    ensures
        match (r, first_line_of(captured(*stdout))) {
            (Some(a), Some(b)) => a@ == b,
            (None, None) => true,
            _ => false,
        },
{
    match stdout {
        Some(bytes) => {
            let text: String = utf8_lossy(bytes.as_slice());
            first_nonempty_trimmed_line(text.as_str())
        },
        None => None,
    }
}

/// The query for the name of the printer queue bound to a port.
pub open spec fn queue_for_port_query(port: Seq<char>) -> Seq<char> {
    "Get-Printer | Where-Object { $_.PortName -eq '"@ + port
        + "' } | Select-Object -First 1 -ExpandProperty Name"@
}

/// The query for the name of the printer queue bound to `port`.
pub fn printer_queue_for_port_query(port: &str) -> (r: String)
    ensures
        r@ == queue_for_port_query(port@),
{
    let mut v: Vec<char> = Vec::new();
    push_str(&mut v, "Get-Printer | Where-Object { $_.PortName -eq '");
    let pc: Vec<char> = chars_of(port);
    push_all(&mut v, &pc);
    push_str(&mut v, "' } | Select-Object -First 1 -ExpandProperty Name");
    string_of(&v)
}

/// A USBPRINT interface path names the cutter's device (VID 045B, PID 5310),
/// compared without regard to case.
pub open spec fn is_cutter_interface(path: Seq<char>) -> bool {
    contains(lowercase(path), "vid_045b"@) && contains(lowercase(path), "pid_5310"@)
}

/// The USBPRINT interface to write to, among those present in enumeration
/// order: the first that names the cutter's device, otherwise the first.
pub open spec fn chosen_interface(paths: Seq<Seq<char>>) -> Option<Seq<char>> {
    if exists|i: int| 0 <= i < paths.len() && is_cutter_interface(paths[i]) {
        let i = choose|i: int|
            0 <= i < paths.len() && is_cutter_interface(paths[i]) && forall|j: int|
                0 <= j < i ==> !is_cutter_interface(paths[j]);
        Some(paths[i])
    } else if paths.len() > 0 {
        Some(paths[0])
    } else {
        None
    }
}

/// Whether an interface path names the cutter's device.
pub fn names_cutter_interface(path: &str) -> (r: bool)
    ensures
        r == is_cutter_interface(path@),
{
    let low: String = to_lowercase(path);
    let s: Vec<char> = chars_of(low.as_str());
    let vid: Vec<char> = chars_of("vid_045b");
    let pid: Vec<char> = chars_of("pid_5310");
    contains_exec(&s, &vid) && contains_exec(&s, &pid)
}

/// Chooses the USBPRINT interface to write to.
pub fn pick_usbprint_interface(paths: &Vec<String>) -> (r: Option<String>)
    ensures
        match (r, chosen_interface(paths@.map_values(|p: String| p@))) {
            (Some(a), Some(b)) => a@ == b,
            (None, None) => true,
            _ => false,
        },
{
    let ghost pv = paths@.map_values(|p: String| p@);
    let mut k: usize = 0;
    while k < paths.len()
        invariant
            k <= paths@.len(),
            pv == paths@.map_values(|p: String| p@),
            forall|j: int| 0 <= j < k ==> !is_cutter_interface(#[trigger] pv[j]),
        decreases paths@.len() - k,
    {
        if names_cutter_interface(paths[k].as_str()) {
            proof {
                let c = choose|i: int|
                    0 <= i < pv.len() && is_cutter_interface(pv[i]) && forall|j: int|
                        0 <= j < i ==> !is_cutter_interface(pv[j]);
                assert(0 <= k < pv.len() && is_cutter_interface(pv[k as int]) && forall|j: int|
                    0 <= j < k ==> !is_cutter_interface(pv[j]));
                if c < k {
                    assert(!is_cutter_interface(pv[c]));
                } else if c > k {
                    assert(!is_cutter_interface(pv[k as int]));
                }
            }
            return Some(paths[k].clone());
        }
        k = k + 1;
    }
    if paths.len() > 0 {
        Some(paths[0].clone())
    } else {
        None
    }
}

// ---------------------------------------------------------------------------
// Jobs
// ---------------------------------------------------------------------------

/// Bytes of HPGL per message when a job goes to a printer queue.
pub const HPGL_CHUNK: usize = 256;

/// Sheet width announced before a job: the default work area of 304.8 mm at
/// 40 units per mm.
pub const PREPARE_WIDTH_UNITS: u32 = 12192;

/// Sheet height announced before a job: the default work area of 347.8 mm
/// at 40 units per mm.
pub const PREPARE_HEIGHT_UNITS: u32 = 13912;

/// One job line as written to the cutter: the line trimmed, then CR LF.
pub open spec fn job_line(line: Seq<char>) -> Seq<char> {
    trim(line) + "\r\n"@
}

/// All job lines, each trimmed and terminated by CR LF.
pub open spec fn job_text(lines: Seq<Seq<char>>) -> Seq<char>
    decreases lines.len(),
{
    if lines.len() == 0 {
        seq![]
    } else {
        job_text(lines.drop_last()) + job_line(lines.last())
    }
}

/// The bytes written for each job line when a job is streamed line by line.
pub fn line_job_payloads(lines: &[String]) -> (r: Vec<Vec<u8>>)
    ensures
        r@.len() == lines@.len(),
        forall|i: int|
            0 <= i < lines@.len() ==> #[trigger] r@[i]@ == encode_utf8(job_line(lines@[i]@)),
{
    let mut out: Vec<Vec<u8>> = Vec::new();
    let mut k: usize = 0;
    while k < lines.len()
        invariant
            k <= lines@.len(),
            out@.len() == k,
            forall|i: int|
                0 <= i < k ==> #[trigger] out@[i]@ == encode_utf8(job_line(lines@[i]@)),
        decreases lines@.len() - k,
    {
        let raw: Vec<char> = chars_of(lines[k].as_str());
        let mut t: Vec<char> = trim_chars(&raw);
        push_str(&mut t, "\r\n");
        let s: String = string_of(&t);
        let bytes: &[u8] = s.as_str().as_bytes();
        let mut copy: Vec<u8> = Vec::new();
        push_bytes(&mut copy, bytes);
        out.push(copy);
        k = k + 1;
    }
    out
}

/// The HPGL text of a job: every line trimmed and terminated by CR LF.
pub fn job_text_of(lines: &[String]) -> (s: String)
    ensures
        s@ == job_text(lines@.map_values(|l: String| l@)),
{
    let ghost views = lines@.map_values(|l: String| l@);
    let mut out: Vec<char> = Vec::new();
    let mut k: usize = 0;
    while k < lines.len()
        invariant
            k <= lines@.len(),
            views == lines@.map_values(|l: String| l@),
            out@ == job_text(views.take(k as int)),
        decreases lines@.len() - k,
    {
        let raw: Vec<char> = chars_of(lines[k].as_str());
        let t: Vec<char> = trim_chars(&raw);
        push_all(&mut out, &t);
        push_str(&mut out, "\r\n");
        assert(views.take(k + 1).drop_last() =~= views.take(k as int));
        assert(out@ =~= job_text(views.take(k as int)) + job_line(views[k as int]));
        k = k + 1;
    }
    assert(views.take(lines@.len() as int) =~= views);
    string_of(&out)
}

/// The messages of a job sent to a printer queue.
pub struct QueueJob {
    /// The sized "prepare for loading" command.
    pub prepare: Vec<u8>,
    /// One HPGL message per 256-byte chunk of the job text.
    pub chunks: Vec<Vec<u8>>,
    /// Progress in percent after each chunk.
    pub progress: Vec<u8>,
    /// The eject command.
    pub eject: Vec<u8>,
    /// The stream reset command.
    pub reset: Vec<u8>,
}

/// Plans a job for a printer queue: the prepare command, the job text in
/// 256-byte chunks each wrapped in a message, the progress after each chunk,
/// then the eject and stream reset commands.
pub fn queue_job(lines: &[String]) -> (j: QueueJob)
    ensures
        j.prepare@ == text_message(
            prepare_with_size_payload(1, PREPARE_WIDTH_UNITS, PREPARE_HEIGHT_UNITS),
        ),
        j.eject@ == text_message("PG;"@),
        j.reset@ == text_message("JS;"@),
        j.chunks@.len() == chunk_count(
            encode_utf8(job_text(lines@.map_values(|l: String| l@))).len(),
            HPGL_CHUNK as nat,
        ),
        j.progress@.len() == j.chunks@.len(),
        forall|i: int|
            0 <= i < j.chunks@.len() ==> #[trigger] j.chunks@[i]@ == text_message(
                lossy_utf8(
                    chunk(
                        encode_utf8(job_text(lines@.map_values(|l: String| l@))),
                        HPGL_CHUNK as nat,
                        i,
                    ),
                ),
            ),
        forall|i: int|
            0 <= i < j.progress@.len() ==> #[trigger] j.progress@[i] as nat == percent(
                (i + 1) as nat,
                j.chunks@.len() as nat,
            ),
{
    let prepare: Vec<u8> = generate_prepare_job_with_size(
        1,
        PREPARE_WIDTH_UNITS,
        PREPARE_HEIGHT_UNITS,
    );
    let text: String = job_text_of(lines);
    let bytes: &[u8] = text.as_str().as_bytes();
    let pieces: Vec<Vec<u8>> = split_chunks(bytes, HPGL_CHUNK);
    let total: usize = pieces.len();
    let mut chunks: Vec<Vec<u8>> = Vec::new();
    let mut progress: Vec<u8> = Vec::new();
    let mut k: usize = 0;
    while k < total
        invariant
            k <= total,
            total == pieces@.len(),
            chunks@.len() == k,
            progress@.len() == k,
            forall|i: int|
                0 <= i < k ==> #[trigger] chunks@[i]@ == text_message(lossy_utf8(pieces@[i]@)),
            forall|i: int|
                0 <= i < k ==> #[trigger] progress@[i] as nat == percent(
                    (i + 1) as nat,
                    total as nat,
                ),
        decreases total - k,
    {
        let s: String = utf8_lossy(pieces[k].as_slice());
        chunks.push(generate_hpgl_message(s.as_str()));
        progress.push(progress_percent(k + 1, total));
        k = k + 1;
    }
    QueueJob {
        prepare,
        chunks,
        progress,
        eject: generate_eject_command(),
        reset: generate_stream_reset_command(),
    }
}

/// Status polls sent while the media is loaded, before the job data.
pub const MEDIA_POLLS: u32 = 7;

/// What a job sent to a printer queue does next.
#[derive(Debug, Clone, Copy, PartialEq, Eq, Structural)]
pub enum QueueStep {
    /// Write the prepare command.
    WritePrepare,
    /// Write status poll number `n` (counting from 0) while the media loads.
    WritePoll(u32),
    /// Write the message carrying chunk `i` of the job.
    WriteChunk(usize),
    /// Write the eject command; the flag tells whether every chunk was
    /// written.
    WriteEject(bool),
    /// Write the stream reset command; the flag tells whether every chunk
    /// was written.
    WriteReset(bool),
    /// Report the end of the job: success, or failure.
    Finish(bool),
    /// The end has been reported.
    Idle,
}

/// The step after a write of step `step` of a job with `chunks` chunks went
/// as `ok` says. A failed prepare or poll ends the job with a failure at
/// once. A failed chunk stops the data: the media is still ejected and the
/// stream reset, and the job then ends with a failure. The eject and reset
/// are sent whatever comes of them, and the job succeeds when every chunk
/// was written.
pub open spec fn queue_after(step: QueueStep, ok: bool, chunks: nat) -> QueueStep {
    match step {
        QueueStep::WritePrepare => if ok {
            QueueStep::WritePoll(0)
        } else {
            QueueStep::Finish(false)
        },
        QueueStep::WritePoll(n) => if !ok {
            QueueStep::Finish(false)
        } else if n + 1 < MEDIA_POLLS {
            QueueStep::WritePoll((n + 1) as u32)
        } else if chunks > 0 {
            QueueStep::WriteChunk(0)
        } else {
            QueueStep::WriteEject(true)
        },
        QueueStep::WriteChunk(i) => if !ok {
            QueueStep::WriteEject(false)
        } else if i + 1 < chunks {
            QueueStep::WriteChunk((i + 1) as usize)
        } else {
            QueueStep::WriteEject(true)
        },
        QueueStep::WriteEject(all) => QueueStep::WriteReset(all),
        QueueStep::WriteReset(all) => QueueStep::Finish(all),
        QueueStep::Finish(_) => QueueStep::Idle,
        QueueStep::Idle => QueueStep::Idle,
    }
}

/// Whether a step writes to the queue.
pub open spec fn is_write(step: QueueStep) -> bool {
    !(step is Finish) && !(step is Idle)
}

/// The progress of a job sent to a printer queue.
pub struct QueueRun {
    chunks: usize,
    step: QueueStep,
}

impl QueueRun {
    /// The number of chunks of the job.
    pub closed spec fn chunk_total(&self) -> nat {
        self.chunks as nat
    }

    /// The current step.
    pub closed spec fn current(&self) -> QueueStep {
        self.step
    }

    /// The run is in a consistent state: a poll or chunk number is in range.
    pub closed spec fn wf(&self) -> bool {
        &&& self.step matches QueueStep::WritePoll(n) ==> n < MEDIA_POLLS
        &&& self.step matches QueueStep::WriteChunk(i) ==> i < self.chunks
    }

    /// A run of a job with `chunks` chunks, starting with the prepare
    /// command.
    pub fn new(chunks: usize) -> (r: Self)
        ensures
            r.wf(),
            r.chunk_total() == chunks,
            r.current() == QueueStep::WritePrepare,
    {
        QueueRun { chunks, step: QueueStep::WritePrepare }
    }

    /// What to do next.
    pub fn next_step(&self) -> (r: QueueStep)
        ensures
            r == self.current(),
    {
        self.step
    }

    /// Records how the write of the current step went.
    pub fn written(&mut self, ok: bool)
        requires
            old(self).wf(),
            is_write(old(self).current()),
        ensures
            final(self).wf(),
            final(self).chunk_total() == old(self).chunk_total(),
            final(self).current() == queue_after(old(self).current(), ok, old(self).chunk_total()),
    {
        self.step = match self.step {
            QueueStep::WritePrepare => if ok {
                QueueStep::WritePoll(0)
            } else {
                QueueStep::Finish(false)
            },
            QueueStep::WritePoll(n) => if !ok {
                QueueStep::Finish(false)
            } else if n + 1 < MEDIA_POLLS {
                QueueStep::WritePoll(n + 1)
            } else if self.chunks > 0 {
                QueueStep::WriteChunk(0)
            } else {
                QueueStep::WriteEject(true)
            },
            QueueStep::WriteChunk(i) => if !ok {
                QueueStep::WriteEject(false)
            } else if i + 1 < self.chunks {
                QueueStep::WriteChunk(i + 1)
            } else {
                QueueStep::WriteEject(true)
            },
            QueueStep::WriteEject(all) => QueueStep::WriteReset(all),
            QueueStep::WriteReset(all) => QueueStep::Finish(all),
            QueueStep::Finish(_) => QueueStep::Idle,
            QueueStep::Idle => QueueStep::Idle,
        };
    }

    /// Records that the end was reported.
    pub fn end_reported(&mut self)
        requires
            old(self).current() is Finish,
        ensures
            final(self).wf(),
            final(self).chunk_total() == old(self).chunk_total(),
            final(self).current() == QueueStep::Idle,
    {
        self.step = QueueStep::Idle;
    }
}

/// With every write succeeding, a job sends the prepare command, all media
/// polls, every chunk in order, the eject and the reset, then reports
/// success. A failed prepare or poll write ends it with a failure at once; a
/// failed chunk write skips the remaining chunks but still ejects the media
/// and resets the stream, whatever comes of those writes, and then reports
/// a failure.
pub proof fn lemma_queue_run(chunks: nat, n: u32, i: usize, all: bool, ok: bool)
    requires
        n < MEDIA_POLLS,
        i < chunks,
    ensures
        queue_after(QueueStep::WritePrepare, true, chunks) == QueueStep::WritePoll(0),
        n + 1 < MEDIA_POLLS ==> queue_after(QueueStep::WritePoll(n), true, chunks)
            == QueueStep::WritePoll((n + 1) as u32),
        queue_after(QueueStep::WritePoll((MEDIA_POLLS - 1) as u32), true, chunks)
            == QueueStep::WriteChunk(0),
        i + 1 < chunks ==> queue_after(QueueStep::WriteChunk(i), true, chunks)
            == QueueStep::WriteChunk((i + 1) as usize),
        i + 1 == chunks ==> queue_after(QueueStep::WriteChunk(i), true, chunks)
            == QueueStep::WriteEject(true),
        queue_after(QueueStep::WriteEject(all), ok, chunks) == QueueStep::WriteReset(all),
        queue_after(QueueStep::WriteReset(all), ok, chunks) == QueueStep::Finish(all),
        queue_after(QueueStep::WritePrepare, false, chunks) == QueueStep::Finish(false),
        queue_after(QueueStep::WritePoll(n), false, chunks) == QueueStep::Finish(false),
        queue_after(QueueStep::WriteChunk(i), false, chunks) == QueueStep::WriteEject(false),
{
}

} // verus!
