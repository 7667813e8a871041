//! Ruida laser controller protocol.
//!
//! Every byte on the wire is XOR-scrambled with the key `0x88`, in both
//! directions. A packet is `[cmd] [data...] [checksum]`, scrambled, where the
//! checksum is the low byte of the sum of the command and data bytes. A job is
//! sent as `.rd` data wrapped in begin / data / end transfer packets.

use vstd::prelude::*;
use crate::text::{
    chars_of, hex_byte, parse_hex_u8, parse_unsigned, push_hex_byte, string_of, trim,
    trim_chars,
};

verus! {

/// XOR key applied to every byte in both directions.
pub const XOR_KEY: u8 = 0x88;

/// Heartbeat.
pub const CMD_PING: u8 = 0xDA;

/// Position request (`0xD8 0x00`; also the first byte of a position response).
pub const CMD_GET_POS: u8 = 0xD8;

/// Relative jog.
pub const CMD_JOG: u8 = 0xD9;

/// Feed hold.
pub const CMD_FEED_HOLD: u8 = 0x24;

/// Cycle start / resume.
pub const CMD_CYCLE_START: u8 = 0x25;

/// Soft reset.
pub const CMD_SOFT_RESET: u8 = 0x26;

/// Return to origin (`0xD8 0x2C`).
pub const CMD_HOME: u8 = 0xD8;

/// Begin a file transfer.
pub const CMD_FILE_BEGIN: u8 = 0xD4;

/// End a file transfer.
pub const CMD_FILE_END: u8 = 0xD5;

/// A chunk of file data.
pub const CMD_FILE_DATA: u8 = 0xD3;

/// UDP port the controller listens on.
pub const UDP_MACHINE_PORT: u16 = 50200;

/// UDP port the host binds locally.
pub const UDP_LOCAL_PORT: u16 = 50300;

/// Bytes of job data per transfer packet.
pub const JOB_CHUNK: usize = 500;

// ---------------------------------------------------------------------------
// Scrambling and packets
// ---------------------------------------------------------------------------

/// `bytes` with every byte XOR-ed with the key.
pub open spec fn scrambled(bytes: Seq<u8>) -> Seq<u8> {
    Seq::new(bytes.len(), |i: int| bytes[i] ^ XOR_KEY)
}

/// The sum of `bytes`, modulo 256.
pub open spec fn byte_sum(bytes: Seq<u8>) -> u8
    decreases bytes.len(),
{
    if bytes.len() == 0 {
        0
    } else {
        ((byte_sum(bytes.drop_last()) + bytes.last()) % 256) as u8
    }
}

/// The unscrambled content of a packet: command, data and checksum.
pub open spec fn raw_packet(cmd: u8, data: Seq<u8>) -> Seq<u8> {
    let body = seq![cmd] + data;
    body.push(byte_sum(body))
}

/// The packet as sent on the wire.
pub open spec fn packet(cmd: u8, data: Seq<u8>) -> Seq<u8> {
    scrambled(raw_packet(cmd, data))
}

/// XOR-scrambles a buffer in place (the same operation unscrambles).
pub fn scramble(buf: &mut Vec<u8>)
    ensures
        final(buf)@ == scrambled(old(buf)@),
{
    let mut i: usize = 0;
    while i < buf.len()
        invariant
            i <= buf@.len(),
            buf@.len() == old(buf)@.len(),
            forall|j: int| 0 <= j < i ==> buf@[j] == old(buf)@[j] ^ XOR_KEY,
            forall|j: int| i <= j < buf@.len() ==> buf@[j] == old(buf)@[j],
        decreases buf@.len() - i,
    {
        let b: u8 = buf[i];
        buf.set(i, b ^ XOR_KEY);
        i = i + 1;
    }
    assert(buf@ =~= scrambled(old(buf)@));
}

/// Builds a scrambled packet with its trailing checksum.
pub fn make_packet(cmd: u8, data: &[u8]) -> (p: Vec<u8>)
    ensures
        p@ == packet(cmd, data@),
{
    let mut raw: Vec<u8> = Vec::new();
    raw.push(cmd);
    let mut checksum: u8 = cmd;
    assert(raw@ =~= seq![cmd]);
    assert(raw@.drop_last() =~= Seq::<u8>::empty());
    assert(byte_sum(Seq::<u8>::empty()) == 0);
    assert(raw@.last() == cmd);
    assert(byte_sum(raw@) == cmd);
    let mut k: usize = 0;
    while k < data.len()
        invariant
            k <= data@.len(),
            raw@ == seq![cmd] + data@.take(k as int),
            checksum == byte_sum(raw@),
        decreases data@.len() - k,
    {
        let b: u8 = data[k];
        let ghost before = raw@;
        raw.push(b);
        assert(raw@.drop_last() =~= before);
        checksum = ((checksum as u16 + b as u16) % 256) as u8;
        assert(raw@ =~= seq![cmd] + data@.take(k + 1));
        k = k + 1;
    }
    assert(data@.take(data@.len() as int) =~= data@);
    raw.push(checksum);
    scramble(&mut raw);
    raw
}

/// Unscrambling a scrambled buffer gives it back.
pub proof fn lemma_scramble_involutive(bytes: Seq<u8>)
    ensures
        scrambled(scrambled(bytes)) == bytes,
{
    assert forall|i: int| 0 <= i < bytes.len() implies (bytes[i] ^ XOR_KEY) ^ XOR_KEY
        == bytes[i] by {
        let b = bytes[i];
        assert((b ^ 0x88u8) ^ 0x88u8 == b) by (bit_vector);
    }
    assert(scrambled(scrambled(bytes)) =~= bytes);
}

/// A packet, once unscrambled, is the command, the data and a checksum equal
/// to the byte sum of what precedes it.
pub proof fn lemma_packet_unscrambles(cmd: u8, data: Seq<u8>)
    ensures
        scrambled(packet(cmd, data)) == raw_packet(cmd, data),
        raw_packet(cmd, data).len() == data.len() + 2,
        raw_packet(cmd, data)[0] == cmd,
        raw_packet(cmd, data).subrange(1, data.len() + 1 as int) == data,
        raw_packet(cmd, data).last() == byte_sum(raw_packet(cmd, data).drop_last()),
{
    lemma_scramble_involutive(raw_packet(cmd, data));
    assert(raw_packet(cmd, data).subrange(1, data.len() + 1 as int) =~= data);
    assert(raw_packet(cmd, data).drop_last() =~= seq![cmd] + data);
}

// ---------------------------------------------------------------------------
// Commands
// ---------------------------------------------------------------------------

/// A request the host sends to the controller. Jog distances are in the
/// controller's native unit (1 unit = 1 µm).
#[derive(Debug, Clone, Copy, PartialEq, Eq)]
pub enum RuidaRequest {
    Ping,
    PollPosition,
    FeedHold,
    CycleStart,
    SoftReset,
    Home,
    Jog { x_units: u32, y_units: u32 },
}

/// Big-endian bytes of a 32-bit value.
pub open spec fn be_u32_bytes(n: u32) -> Seq<u8> {
    seq![
        (n / 16777216) as u8,
        ((n / 65536) % 256) as u8,
        ((n / 256) % 256) as u8,
        (n % 256) as u8,
    ]
}

/// Command byte and data of a request.
pub open spec fn request_parts(req: RuidaRequest) -> (u8, Seq<u8>) {
    match req {
        RuidaRequest::Ping => (CMD_PING, seq![0x00u8]),
        RuidaRequest::PollPosition => (CMD_GET_POS, seq![0x00u8]),
        RuidaRequest::FeedHold => (CMD_FEED_HOLD, seq![]),
        RuidaRequest::CycleStart => (CMD_CYCLE_START, seq![]),
        RuidaRequest::SoftReset => (CMD_SOFT_RESET, seq![]),
        RuidaRequest::Home => (CMD_HOME, seq![0x2Cu8]),
        RuidaRequest::Jog { x_units, y_units } => (
            CMD_JOG,
            seq![0x01u8] + be_u32_bytes(x_units) + be_u32_bytes(y_units),
        ),
    }
}

fn push_be_u32(v: &mut Vec<u8>, n: u32)
    ensures
        final(v)@ == old(v)@ + be_u32_bytes(n),
{
    v.push((n / 16777216) as u8);
    v.push(((n / 65536) % 256) as u8);
    v.push(((n / 256) % 256) as u8);
    v.push((n % 256) as u8);
    assert(v@ =~= old(v)@ + be_u32_bytes(n));
}

/// The packet that carries a request (a jog is a relative move, flag `0x01`).
pub fn request_packet(req: RuidaRequest) -> (p: Vec<u8>)
    ensures
        p@ == packet(request_parts(req).0, request_parts(req).1),
{
    let mut data: Vec<u8> = Vec::new();
    let cmd: u8 = match req {
        RuidaRequest::Ping => {
            data.push(0x00);
            CMD_PING
        },
        RuidaRequest::PollPosition => {
            data.push(0x00);
            CMD_GET_POS
        },
        RuidaRequest::FeedHold => CMD_FEED_HOLD,
        RuidaRequest::CycleStart => CMD_CYCLE_START,
        RuidaRequest::SoftReset => CMD_SOFT_RESET,
        RuidaRequest::Home => {
            data.push(0x2C);
            CMD_HOME
        },
        RuidaRequest::Jog { x_units, y_units } => {
            data.push(0x01);
            push_be_u32(&mut data, x_units);
            push_be_u32(&mut data, y_units);
            CMD_JOG
        },
    };
    assert(data@ =~= request_parts(req).1);
    make_packet(cmd, data.as_slice())
}

// ---------------------------------------------------------------------------
// Job transfer
// ---------------------------------------------------------------------------

/// Number of data packets for `len` bytes of job data.
pub open spec fn chunk_count(len: nat) -> nat {
    crate::device::job::chunk_count(len, JOB_CHUNK as nat)
}

/// The `i`-th chunk of job data.
pub open spec fn job_chunk(data: Seq<u8>, i: int) -> Seq<u8> {
    crate::device::job::chunk(data, JOB_CHUNK as nat, i)
}

/// Progress in percent after `sent` of `total` bytes (`sent * 100 / max(total, 1)`).
pub open spec fn progress_pct(sent: nat, total: nat) -> nat {
    crate::device::job::percent(sent, total)
}

proof fn lemma_chunk_count(i: nat, total: nat)
    requires
        i * JOB_CHUNK < total,
    ensures
        i < chunk_count(total),
        (i + 1) * JOB_CHUNK < total ==> i + 1 < chunk_count(total),
        (i + 1) * JOB_CHUNK >= total ==> i + 1 == chunk_count(total),
{
    assert(i < chunk_count(total)) by (nonlinear_arith)
        requires
            i * 500 < total,
            chunk_count(total) == (total + 499) / 500,
    ;
    assert((i + 1) * 500 < total ==> i + 1 < chunk_count(total)) by (nonlinear_arith)
        requires
            chunk_count(total) == (total + 499) / 500,
    ;
    assert((i + 1) * 500 >= total ==> i + 1 == chunk_count(total)) by (nonlinear_arith)
        requires
            i * 500 < total,
            chunk_count(total) == (total + 499) / 500,
    ;
}

/// The packets of a job transfer and the progress reported after each data
/// packet.
pub struct JobTransfer {
    /// The begin packet, then one data packet per chunk, then the end packet.
    pub packets: Vec<Vec<u8>>,
    /// Progress in percent after each data packet.
    pub progress: Vec<u8>,
}

/// Plans the transfer of `.rd` data: a begin packet, one data packet per
/// 500-byte chunk, an end packet, and the progress after each chunk.
pub fn job_transfer(data: &[u8]) -> (t: JobTransfer)
    ensures
        t.packets@.len() == chunk_count(data@.len()) + 2,
        t.progress@.len() == chunk_count(data@.len()),
        t.packets@[0]@ == packet(CMD_FILE_BEGIN, seq![]),
        t.packets@.last()@ == packet(CMD_FILE_END, seq![]),
        forall|i: int|
            0 <= i < chunk_count(data@.len()) ==> #[trigger] t.packets@[i + 1]@ == packet(
                CMD_FILE_DATA,
                job_chunk(data@, i),
            ),
        forall|i: int|
            0 <= i < chunk_count(data@.len()) ==> #[trigger] t.progress@[i] as nat == progress_pct(
                (job_chunk(data@, i).len() + i * JOB_CHUNK) as nat,
                data@.len(),
            ),
{
    let total: usize = data.len();
    let mut packets: Vec<Vec<u8>> = Vec::new();
    let mut progress: Vec<u8> = Vec::new();
    packets.push(make_packet(CMD_FILE_BEGIN, &[]));
    let mut start: usize = 0;
    let mut i: usize = 0;
    while start < total
        invariant
            total == data@.len(),
            start <= total,
            start < total ==> start == i * JOB_CHUNK && i < chunk_count(total as nat),
            start >= total ==> i == chunk_count(total as nat),
            packets@.len() == i + 1,
            progress@.len() == i,
            packets@[0]@ == packet(CMD_FILE_BEGIN, seq![]),
            forall|j: int|
                0 <= j < i ==> #[trigger] packets@[j + 1]@ == packet(
                    CMD_FILE_DATA,
                    job_chunk(data@, j),
                ),
            forall|j: int|
                0 <= j < i ==> #[trigger] progress@[j] as nat == progress_pct(
                    (job_chunk(data@, j).len() + j * JOB_CHUNK) as nat,
                    total as nat,
                ),
        decreases total - start,
    {
        let end: usize = if total - start > JOB_CHUNK {
            start + JOB_CHUNK
        } else {
            total
        };
        let mut chunk: Vec<u8> = Vec::new();
        let mut k: usize = start;
        while k < end
            invariant
                start <= k <= end <= data@.len(),
                chunk@ == data@.subrange(start as int, k as int),
            decreases end - k,
        {
            chunk.push(data[k]);
            assert(chunk@ =~= data@.subrange(start as int, k + 1));
            k = k + 1;
        }
        assert(chunk@ == job_chunk(data@, i as int));
        packets.push(make_packet(CMD_FILE_DATA, chunk.as_slice()));
        assert(end <= total);
        assert(end * 100 <= total * 100) by (nonlinear_arith)
            requires
                end <= total,
        ;
        let pct: u8 = if total == 0 {
            0
        } else {
            assert((end * 100) as int / (total as int) <= 100) by (nonlinear_arith)
                requires
                    end <= total,
                    total > 0,
            ;
            ((end as u128 * 100) / (total as u128)) as u8
        };
        progress.push(pct);
        proof {
            lemma_chunk_count(i as nat, total as nat);
        }
        start = end;
        i = i + 1;
    }
    packets.push(make_packet(CMD_FILE_END, &[]));
    JobTransfer { packets, progress }
}

/// What a job transfer does next.
#[derive(Debug, Clone, Copy, PartialEq, Eq, Structural)]
pub enum TransferStep {
    /// Send packet `i` of the transfer.
    Send(usize),
    /// A packet before the end packet could not be sent: report the transfer
    /// error and stop.
    Abort,
    /// Report the job as finished.
    Finish,
    /// The end has been reported.
    Idle,
}

/// The step after sending packet `step` of a transfer of `packets` packets
/// went as `ok` says. A failed packet before the end packet aborts the
/// transfer; the end packet is sent whatever comes of it, and the job then
/// finishes.
pub open spec fn transfer_after(step: TransferStep, ok: bool, packets: nat) -> TransferStep {
    match step {
        TransferStep::Send(i) => if i + 1 >= packets {
            TransferStep::Finish
        } else if !ok {
            TransferStep::Abort
        } else {
            TransferStep::Send((i + 1) as usize)
        },
        _ => TransferStep::Idle,
    }
}

/// The progress entry reported after sending packet `step`: after each data
/// packet sent (every packet but the first and the last), the entry of its
/// chunk.
pub open spec fn transfer_progress(step: TransferStep, ok: bool, packets: nat) -> Option<nat> {
    match step {
        TransferStep::Send(i) => if ok && 1 <= i && i + 1 < packets {
            Some((i - 1) as nat)
        } else {
            None
        },
        _ => None,
    }
}

/// The progress of a job transfer: the begin packet, the data packets and
/// the end packet, sent in order.
pub struct TransferRun {
    packets: usize,
    step: TransferStep,
}

impl TransferRun {
    /// The number of packets of the transfer.
    pub closed spec fn packet_total(&self) -> nat {
        self.packets as nat
    }

    /// The current step.
    pub closed spec fn current(&self) -> TransferStep {
        self.step
    }

    /// The run is in a consistent state: a packet number is in range.
    pub closed spec fn wf(&self) -> bool {
        self.step matches TransferStep::Send(i) ==> i < self.packets
    }

    /// A transfer of `packets` packets (a begin and an end packet at least),
    /// starting with the first.
    pub fn new(packets: usize) -> (r: Self)
        requires
            packets >= 2,
        ensures
            r.wf(),
            r.packet_total() == packets,
            r.current() == TransferStep::Send(0),
    {
        TransferRun { packets, step: TransferStep::Send(0) }
    }

    /// What to do next.
    pub fn next_step(&self) -> (r: TransferStep)
        requires
            self.wf(),
        ensures
            r == self.current(),
            r matches TransferStep::Send(i) ==> i < self.packet_total(),
    {
        self.step
    }

    /// Records how sending the current packet went, and gives the progress
    /// entry to report, if any.
    pub fn packet_sent(&mut self, ok: bool) -> (k: Option<usize>)
        requires
            old(self).wf(),
            old(self).current() is Send,
        ensures
            final(self).wf(),
            final(self).packet_total() == old(self).packet_total(),
            final(self).current() == transfer_after(old(self).current(), ok, old(self).packet_total()),
            opt_nat(k) == transfer_progress(old(self).current(), ok, old(self).packet_total()),
            k matches Some(j) ==> j + 2 < old(self).packet_total(),
    {
        match self.step {
            TransferStep::Send(i) => {
                let k = if ok && 1 <= i && i + 1 < self.packets {
                    Some(i - 1)
                } else {
                    None
                };
                self.step = if i + 1 >= self.packets {
                    TransferStep::Finish
                } else if !ok {
                    TransferStep::Abort
                } else {
                    TransferStep::Send(i + 1)
                };
                k
            },
            _ => None,
        }
    }

    /// Records that the end of the transfer was reported.
    pub fn end_reported(&mut self)
        requires
            old(self).current() is Abort || old(self).current() is Finish,
        ensures
            final(self).wf(),
            final(self).packet_total() == old(self).packet_total(),
            final(self).current() == TransferStep::Idle,
    {
        self.step = TransferStep::Idle;
    }
}

/// A progress entry as a number.
pub open spec fn opt_nat(k: Option<usize>) -> Option<nat> {
    match k {
        Some(j) => Some(j as nat),
        None => None,
    }
}

/// A transfer sends its packets in order and reports the progress entry of
/// each data packet after it is sent; a packet that fails before the end
/// packet aborts it, and the end packet, sent whatever comes of it, finishes
/// it. Either end is reported once, and then nothing more is done.
pub proof fn lemma_transfer_run(packets: usize, i: usize, ok: bool)
    requires
        packets >= 2,
        i < packets,
    ensures
        i + 1 < packets ==> transfer_after(TransferStep::Send(i), true, packets as nat)
            == TransferStep::Send((i + 1) as usize),
        i + 1 < packets ==> transfer_after(TransferStep::Send(i), false, packets as nat)
            == TransferStep::Abort,
        i + 1 == packets ==> transfer_after(TransferStep::Send(i), ok, packets as nat)
            == TransferStep::Finish,
        1 <= i && i + 1 < packets ==> transfer_progress(TransferStep::Send(i), true, packets as nat)
            == Some((i - 1) as nat),
        transfer_progress(TransferStep::Send(0), ok, packets as nat) is None,
        i + 1 == packets ==> transfer_progress(TransferStep::Send(i), ok, packets as nat) is None,
        transfer_after(TransferStep::Abort, ok, packets as nat) == TransferStep::Idle,
        transfer_after(TransferStep::Finish, ok, packets as nat) == TransferStep::Idle,
        transfer_after(TransferStep::Idle, ok, packets as nat) == TransferStep::Idle,
{
}

// ---------------------------------------------------------------------------
// Responses
// ---------------------------------------------------------------------------

/// Big-endian value of four bytes.
pub open spec fn be_u32_value(b0: u8, b1: u8, b2: u8, b3: u8) -> nat {
    (b0 * 16777216 + b1 * 65536 + b2 * 256 + b3) as nat
}

/// The position a response reports, in machine units: `[D8] x[4] y[4]`
/// (the response already unscrambled).
pub open spec fn spec_position_units(data: Seq<u8>) -> Option<(nat, nat)> {
    if data.len() >= 9 && data[0] == CMD_GET_POS {
        Some(
            (
                be_u32_value(data[1], data[2], data[3], data[4]),
                be_u32_value(data[5], data[6], data[7], data[8]),
            ),
        )
    } else {
        None
    }
}

/// Reads the machine position (1 unit = 1 µm) from an unscrambled response.
pub fn position_units(data: &[u8]) -> (r: Option<(u32, u32)>)
    ensures
        match (r, spec_position_units(data@)) {
            (Some((x, y)), Some((sx, sy))) => x == sx && y == sy,
            (None, None) => true,
            _ => false,
        },
{
    if data.len() >= 9 && data[0] == CMD_GET_POS {
        let x: u32 = data[1] as u32 * 16777216 + data[2] as u32 * 65536 + data[3] as u32 * 256
            + data[4] as u32;
        let y: u32 = data[5] as u32 * 16777216 + data[6] as u32 * 65536 + data[7] as u32 * 256
            + data[8] as u32;
        Some((x, y))
    } else {
        None
    }
}

/// Upper-case hexadecimal bytes separated by single spaces.
pub open spec fn hex_summary_of(data: Seq<u8>) -> Seq<char>
    decreases data.len(),
{
    if data.len() == 0 {
        seq![]
    } else if data.len() == 1 {
        hex_byte(data[0], true)
    } else {
        hex_summary_of(data.drop_last()) + seq![' '] + hex_byte(data.last(), true)
    }
}

/// The bytes of a response as upper-case hex separated by spaces
/// (`"D8 00 01"`), as logged for each response.
pub fn hex_summary(data: &[u8]) -> (s: String)
    ensures
        s@ == hex_summary_of(data@),
{
    let mut out: Vec<char> = Vec::new();
    let mut k: usize = 0;
    while k < data.len()
        invariant
            k <= data@.len(),
            out@ == hex_summary_of(data@.take(k as int)),
        decreases data@.len() - k,
    {
        if k > 0 {
            out.push(' ');
        }
        push_hex_byte(&mut out, data[k], true);
        assert(data@.take(k + 1).drop_last() =~= data@.take(k as int));
        k = k + 1;
    }
    assert(data@.take(data@.len() as int) =~= data@);
    string_of(&out)
}

// ---------------------------------------------------------------------------
// `.rd` data lines
// ---------------------------------------------------------------------------

/// The bytes of hex-per-line job data: each line, trimmed, that parses as a
/// hexadecimal byte contributes it; other lines are skipped.
pub open spec fn rd_bytes(lines: Seq<Seq<char>>) -> Seq<u8>
    decreases lines.len(),
{
    if lines.len() == 0 {
        seq![]
    } else {
        let rest = rd_bytes(lines.drop_last());
        match parse_unsigned(trim(lines.last()), 16, 255) {
            Some(b) => rest.push(b as u8),
            None => rest,
        }
    }
}

/// Decodes `.rd` data from hex-per-line strings produced by the generator.
pub fn decode_rd_lines(lines: &[String]) -> (out: Vec<u8>)
    ensures
        out@ == rd_bytes(lines@.map_values(|l: String| l@)),
{
    let ghost views = lines@.map_values(|l: String| l@);
    let mut out: Vec<u8> = Vec::new();
    let mut k: usize = 0;
    while k < lines.len()
        invariant
            k <= lines@.len(),
            views == lines@.map_values(|l: String| l@),
            out@ == rd_bytes(views.take(k as int)),
        decreases lines@.len() - k,
    {
        let line: Vec<char> = chars_of(lines[k].as_str());
        let trimmed: Vec<char> = trim_chars(&line);
        assert(views.take(k + 1).drop_last() =~= views.take(k as int));
        assert(views.take(k + 1).last() == lines@[k as int]@);
        match parse_hex_u8(&trimmed) {
            Some(b) => out.push(b),
            None => {},
        }
        k = k + 1;
    }
    assert(views.take(lines@.len() as int) =~= views);
    out
}

} // verus!
