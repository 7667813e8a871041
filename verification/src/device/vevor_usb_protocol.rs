//! Vevor Smart1 USB protocol.
//!
//! Each message is a 28-byte header followed by the payload:
//! - byte 0: `0x1B` (ESC marker), byte 1: `0x00`;
//! - bytes 2-5: CRC32 (little-endian) of bytes 6-27 followed by the payload;
//! - bytes 6-23: a fixed constant;
//! - bytes 24-25: payload length (little-endian `u16`);
//! - bytes 26-27: `0x0000`.
//!
//! The payload holds ASCII HPGL or device commands (`IN;`, `SP1;`, `setmat:0;`,
//! `TB42;`, ...).

use vstd::prelude::*;
use vstd::utf8::*;
use vstd::string::*;
use crate::text::{
    chars_of, contains, contains_exec, decimal, decimal_chars, push_all, push_str, string_of,
};

verus! {

/// State machine for the Vevor job workflow.
#[derive(Debug, Clone, Copy, PartialEq, Eq)]
pub enum VevorJobState {
    Idle,
    AwaitingMediaLoad,
    MediaLoaded,
    AwaitingStart,
    Cutting,
    CutFinished,
    Error,
}

impl VevorJobState {
    /// Display name of the state.
    pub fn as_str(&self) -> (r: &'static str)
        ensures
            r@ == (match *self {
                VevorJobState::Idle => "Idle"@,
                VevorJobState::AwaitingMediaLoad => "Awaiting Media Load"@,
                VevorJobState::MediaLoaded => "Media Loaded"@,
                VevorJobState::AwaitingStart => "Awaiting Start"@,
                VevorJobState::Cutting => "Cutting"@,
                VevorJobState::CutFinished => "Cut Finished"@,
                VevorJobState::Error => "Error"@,
            }),
    {
        match self {
            VevorJobState::Idle => "Idle",
            VevorJobState::AwaitingMediaLoad => "Awaiting Media Load",
            VevorJobState::MediaLoaded => "Media Loaded",
            VevorJobState::AwaitingStart => "Awaiting Start",
            VevorJobState::Cutting => "Cutting",
            VevorJobState::CutFinished => "Cut Finished",
            VevorJobState::Error => "Error",
        }
    }
}

// ---------------------------------------------------------------------------
// Message layout
// ---------------------------------------------------------------------------

/// One bit step of the reflected CRC-32 (IEEE) register: shift right, and
/// fold in the polynomial `0xEDB88320` when the bit shifted out is set.
pub open spec fn crc32_bit_step(c: u32) -> u32 {
    if c & 1u32 == 1u32 {
        (c >> 1u32) ^ 0xEDB8_8320u32
    } else {
        c >> 1u32
    }
}

/// `n` bit steps of the register.
pub open spec fn crc32_bit_steps(c: u32, n: nat) -> u32
    decreases n,
{
    if n == 0 {
        c
    } else {
        crc32_bit_steps(crc32_bit_step(c), (n - 1) as nat)
    }
}

/// The register after `data`: it starts at `0xFFFFFFFF`, and each byte is
/// xored into its low bits and followed by eight bit steps.
pub open spec fn crc32_register(data: Seq<u8>) -> u32
    decreases data.len(),
{
    if data.len() == 0 {
        0xFFFF_FFFFu32
    } else {
        crc32_bit_steps(crc32_register(data.drop_last()) ^ (data.last() as u32), 8)
    }
}

/// The CRC-32 (IEEE) checksum of `data`: the final register, inverted.
pub open spec fn crc32(data: Seq<u8>) -> u32 {
    crc32_register(data) ^ 0xFFFF_FFFFu32
}

/// The fixed bytes 6-23 of every header.
pub open spec fn fixed_header_bytes() -> Seq<u8> {
    seq![
        0x09u8,
        0x91,
        0xff,
        0xff,
        0x00,
        0x00,
        0x00,
        0x00,
        0x09,
        0x00,
        0x00,
        0x01,
        0x03,
        0x00,
        0x18,
        0x00,
        0x02,
        0x03,
    ]
}

/// Little-endian bytes of a 16-bit value.
pub open spec fn le_u16_bytes(n: u16) -> Seq<u8> {
    seq![(n % 256) as u8, (n / 256) as u8]
}

/// Little-endian bytes of a 32-bit value.
pub open spec fn le_u32_bytes(n: u32) -> Seq<u8> {
    seq![
        (n % 256) as u8,
        ((n / 256) % 256) as u8,
        ((n / 65536) % 256) as u8,
        (n / 16777216) as u8,
    ]
}

/// The length field: the payload length truncated to 16 bits.
pub open spec fn length_field(len: nat) -> u16 {
    (len % 65536) as u16
}

/// Header bytes 6-27 for a payload of `len` bytes.
pub open spec fn header_tail(len: nat) -> Seq<u8> {
    fixed_header_bytes() + le_u16_bytes(length_field(len)) + seq![0x00u8, 0x00]
}

/// The complete message carrying `payload`.
pub open spec fn message(payload: Seq<u8>) -> Seq<u8> {
    seq![0x1Bu8, 0x00] + le_u32_bytes(crc32(header_tail(payload.len()) + payload)) + header_tail(
        payload.len(),
    ) + payload
}

/// The CRC-32 checksum of `data`: `crc32fast::hash`, which computes the
/// CRC-32 (IEEE) checksum, stated here as `crc32`.
#[verifier::external_body]
fn crc32_hash(data: &[u8]) -> (crc: u32)
    ensures
        crc == crc32(data@),
{
    crc32fast::hash(data)
}

fn push_le_u32(v: &mut Vec<u8>, n: u32)
    ensures
        final(v)@ == old(v)@ + le_u32_bytes(n),
{
    v.push((n % 256) as u8);
    v.push(((n / 256) % 256) as u8);
    v.push(((n / 65536) % 256) as u8);
    v.push((n / 16777216) as u8);
    assert(v@ =~= old(v)@ + le_u32_bytes(n));
}

/// Appends the bytes of `src` to `v`.
pub fn push_bytes(v: &mut Vec<u8>, src: &[u8])
    ensures
        final(v)@ == old(v)@ + src@,
{
    let mut k: usize = 0;
    while k < src.len()
        invariant
            k <= src@.len(),
            v@ == old(v)@ + src@.take(k as int),
        decreases src@.len() - k,
    {
        v.push(src[k]);
        assert(src@.take(k + 1) =~= src@.take(k as int).push(src@[k as int]));
        k = k + 1;
    }
    assert(src@.take(src@.len() as int) =~= src@);
}

fn header_tail_bytes(len: usize) -> (r: Vec<u8>)
    ensures
        r@ == header_tail(len as nat),
{
    let mut v: Vec<u8> = Vec::new();
    v.push(0x09);
    v.push(0x91);
    v.push(0xff);
    v.push(0xff);
    v.push(0x00);
    v.push(0x00);
    v.push(0x00);
    v.push(0x00);
    v.push(0x09);
    v.push(0x00);
    v.push(0x00);
    v.push(0x01);
    v.push(0x03);
    v.push(0x00);
    v.push(0x18);
    v.push(0x00);
    v.push(0x02);
    v.push(0x03);
    let n: u16 = (len % 65536) as u16;
    v.push((n % 256) as u8);
    v.push((n / 256) as u8);
    v.push(0x00);
    v.push(0x00);
    assert(v@ =~= header_tail(len as nat));
    v
}

/// Builds a message around `payload`.
fn generate_message(payload: &[u8]) -> (msg: Vec<u8>)
    ensures
        msg@ == message(payload@),
{
    let tail: Vec<u8> = header_tail_bytes(payload.len());
    let mut checked: Vec<u8> = Vec::new();
    push_bytes(&mut checked, tail.as_slice());
    push_bytes(&mut checked, payload);
    let crc: u32 = crc32_hash(checked.as_slice());
    let mut msg: Vec<u8> = Vec::new();
    msg.push(0x1B);
    msg.push(0x00);
    push_le_u32(&mut msg, crc);
    push_bytes(&mut msg, tail.as_slice());
    push_bytes(&mut msg, payload);
    assert(msg@ =~= message(payload@));
    msg
}

/// The message carrying the UTF-8 bytes of a text command.
pub open spec fn text_message(s: Seq<char>) -> Seq<u8> {
    message(encode_utf8(s))
}

/// Generates a message with an HPGL payload.
pub fn generate_hpgl_message(hpgl_commands: &str) -> (msg: Vec<u8>)
    ensures
        msg@ == text_message(hpgl_commands@),
{
    let payload: &[u8] = hpgl_commands.as_bytes();
    generate_message(payload)
}

/// Generates the "prepare for loading" command (`setmat:0;`).
pub fn generate_prepare_job_command() -> (msg: Vec<u8>)
    ensures
        msg@ == text_message("setmat:0;"@),
{
    generate_hpgl_message("setmat:0;")
}

/// Payload of the sized "prepare for loading" command:
/// `setmat:<material>;JS<width>,<height>;`.
pub open spec fn prepare_with_size_payload(material: u8, width_units: u32, height_units: u32) -> Seq<
    char,
> {
    "setmat:"@ + decimal(material as nat) + ";JS"@ + decimal(width_units as nat) + ","@ + decimal(
        height_units as nat,
    ) + ";"@
}

/// Generates the "prepare for loading" command with explicit material and
/// sheet size (observed as `setmat:1;JS12192,12192;`).
pub fn generate_prepare_job_with_size(material: u8, width_units: u32, height_units: u32) -> (msg:
    Vec<u8>)
    ensures
        msg@ == text_message(prepare_with_size_payload(material, width_units, height_units)),
{
    let mut p: Vec<char> = Vec::new();
    push_str(&mut p, "setmat:");
    let m: Vec<char> = decimal_chars(material as u64);
    push_all(&mut p, &m);
    push_str(&mut p, ";JS");
    let w: Vec<char> = decimal_chars(width_units as u64);
    push_all(&mut p, &w);
    push_str(&mut p, ",");
    let h: Vec<char> = decimal_chars(height_units as u64);
    push_all(&mut p, &h);
    push_str(&mut p, ";");
    let s: String = string_of(&p);
    generate_hpgl_message(s.as_str())
}

/// Generates the status poll command (`TB42;`).
pub fn generate_status_poll_command() -> (msg: Vec<u8>)
    ensures
        msg@ == text_message("TB42;"@),
{
    generate_hpgl_message("TB42;")
}

/// Generates the eject media command (`PG;`).
pub fn generate_eject_command() -> (msg: Vec<u8>)
    ensures
        msg@ == text_message("PG;"@),
{
    generate_hpgl_message("PG;")
}

/// Generates the stream reset command (`JS;`).
pub fn generate_stream_reset_command() -> (msg: Vec<u8>)
    ensures
        msg@ == text_message("JS;"@),
{
    generate_hpgl_message("JS;")
}

// ---------------------------------------------------------------------------
// Responses
// ---------------------------------------------------------------------------

/// The payload length announced in bytes 24-25 of a header.
pub open spec fn announced_len(data: Seq<u8>) -> nat {
    (data[24] + 256 * data[25]) as nat
}

/// The outcome of reading a device response: the payload text, or the error
/// message.
pub open spec fn response_outcome(data: Seq<u8>) -> Result<Seq<char>, Seq<char>> {
    if data.len() < 28 {
        Err("Response too short: insufficient header"@)
    } else if data[0] != 0x1B {
        Err("Invalid response: missing ESC marker"@)
    } else if data.len() < 28 + announced_len(data) {
        Err("Response truncated: insufficient payload data"@)
    } else if !valid_utf8(data.subrange(28, 28 + announced_len(data) as int)) {
        Err("Invalid UTF-8 in device response"@)
    } else {
        Ok(decode_utf8(data.subrange(28, 28 + announced_len(data) as int)))
    }
}

/// The text encoded by `bytes` (`String::from_utf8`), or `None` when they are
/// not valid UTF-8.
#[verifier::external_body]
fn utf8_string(bytes: Vec<u8>) -> (r: Option<String>)
    ensures
        match r {
            Some(s) => valid_utf8(bytes@) && s@ == decode_utf8(bytes@),
            None => !valid_utf8(bytes@),
        },
{
    String::from_utf8(bytes).ok()
}

/// Parses a response from the device: checks the header and returns the
/// payload as text.
pub fn parse_device_response(data: &[u8]) -> (r: Result<String, &'static str>)
    ensures
        match (r, response_outcome(data@)) {
            (Ok(s), Ok(t)) => s@ == t,
            (Err(e), Err(m)) => e@ == m,
            _ => false,
        },
{
    if data.len() < 28 {
        return Err("Response too short: insufficient header");
    }
    if data[0] != 0x1B {
        return Err("Invalid response: missing ESC marker");
    }
    let payload_len: usize = data[24] as usize + 256 * (data[25] as usize);
    if data.len() < 28 + payload_len {
        return Err("Response truncated: insufficient payload data");
    }
    let end: usize = 28 + payload_len;
    let mut payload: Vec<u8> = Vec::new();
    let mut k: usize = 28;
    while k < end
        invariant
            28 <= k <= end <= data@.len(),
            end == 28 + payload_len,
            payload@ == data@.subrange(28, k as int),
        decreases end - k,
    {
        payload.push(data[k]);
        assert(payload@ =~= data@.subrange(28, k + 1));
        k = k + 1;
    }
    match utf8_string(payload) {
        Some(s) => Ok(s),
        None => Err("Invalid UTF-8 in device response"),
    }
}

/// The event keywords a device response may hold, in reporting order.
pub open spec fn event_keywords() -> Seq<Seq<char>> {
    seq![
        "LOADPRESSED"@,
        "LOADSUCCESS"@,
        "START"@,
        "BUSY"@,
        "IDLE"@,
        "CUTSUCCESS"@,
        "CUTOVER"@,
        "ERROR"@,
    ]
}

/// The members of `keywords` that occur in `text`, in their order.
pub open spec fn keywords_in(text: Seq<char>, keywords: Seq<Seq<char>>) -> Seq<Seq<char>>
    decreases keywords.len(),
{
    if keywords.len() == 0 {
        seq![]
    } else {
        let found = keywords_in(text, keywords.drop_last());
        if contains(text, keywords.last()) {
            found.push(keywords.last())
        } else {
            found
        }
    }
}

fn keyword_at(i: usize) -> (k: &'static str)
    requires
        i < 8,
    ensures
        k@ == event_keywords()[i as int],
{
    if i == 0 {
        "LOADPRESSED"
    } else if i == 1 {
        "LOADSUCCESS"
    } else if i == 2 {
        "START"
    } else if i == 3 {
        "BUSY"
    } else if i == 4 {
        "IDLE"
    } else if i == 5 {
        "CUTSUCCESS"
    } else if i == 6 {
        "CUTOVER"
    } else {
        "ERROR"
    }
}

/// The event keywords that occur in a device response.
pub fn extract_event_keywords(response: &str) -> (r: Vec<&str>)
    ensures
        r@.map_values(|k: &str| k@) == keywords_in(response@, event_keywords()),
{
    let text: Vec<char> = chars_of(response);
    let mut r: Vec<&str> = Vec::new();
    let mut i: usize = 0;
    while i < 8
        invariant
            i <= 8,
            text@ == response@,
            r@.map_values(|k: &str| k@) == keywords_in(
                response@,
                event_keywords().take(i as int),
            ),
        decreases 8 - i,
    {
        let kw: &'static str = keyword_at(i);
        let kw_chars: Vec<char> = chars_of(kw);
        assert(event_keywords().take(i + 1).drop_last() =~= event_keywords().take(i as int));
        if contains_exec(&text, &kw_chars) {
            r.push(kw);
            assert(r@.map_values(|k: &str| k@) =~= keywords_in(
                response@,
                event_keywords().take(i as int),
            ).push(kw@));
        }
        i = i + 1;
    }
    assert(event_keywords().take(8) =~= event_keywords());
    r
}

// ---------------------------------------------------------------------------
// Laws
// ---------------------------------------------------------------------------

/// Reading back a message built from text gives that text: a payload of
/// fewer than 65536 bytes, framed by [`message`], is recovered exactly by
/// [`response_outcome`].
pub proof fn lemma_text_message_roundtrip(s: Seq<char>)
    requires
        encode_utf8(s).len() < 65536,
    ensures
        response_outcome(text_message(s)) == Ok::<Seq<char>, Seq<char>>(s),
{
    broadcast use encode_utf8_decode_utf8, encode_utf8_valid_utf8;

    let b = encode_utf8(s);
    let m = message(b);
    let n = length_field(b.len());
    assert(n == b.len());
    assert(m[24] == (n % 256) as u8);
    assert(m[25] == (n / 256) as u8);
    assert(announced_len(m) == b.len());
    assert(m.subrange(28, 28 + b.len() as int) =~= b);
}

/// Every message starts with the ESC marker, carries the fixed header bytes
/// at positions 6-23, announces its payload length (modulo 65536) at
/// positions 24-25, and ends with the payload.
pub proof fn lemma_message_layout(payload: Seq<u8>)
    ensures
        message(payload).len() == 28 + payload.len(),
        message(payload)[0] == 0x1B,
        message(payload).subrange(6, 24) == fixed_header_bytes(),
        message(payload)[24] + 256 * message(payload)[25] == payload.len() % 65536,
        message(payload).subrange(28, 28 + payload.len() as int) == payload,
{
    let m = message(payload);
    assert(m.subrange(6, 24) =~= fixed_header_bytes());
    assert(m.subrange(28, 28 + payload.len() as int) =~= payload);
}

} // verus!
