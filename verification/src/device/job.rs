//! Job streaming shared by the device drivers: progress reporting and the
//! splitting of job data into fixed-size chunks.

use vstd::prelude::*;

verus! {

/// Progress in percent after `done` of `total` steps
/// (`done * 100 / max(total, 1)`).
pub open spec fn percent(done: nat, total: nat) -> nat {
    done * 100 / (if total == 0 {
        1
    } else {
        total
    })
}

/// Progress in percent after `done` of `total` steps.
pub fn progress_percent(done: usize, total: usize) -> (r: u8)
    requires
        done <= total,
    ensures
        r as nat == percent(done as nat, total as nat),
        r <= 100,
{
    let t: u128 = if total == 0 {
        1
    } else {
        total as u128
    };
    assert(done * 100 <= t * 100) by (nonlinear_arith)
        requires
            done <= total,
            total <= t,
    ;
    assert((done * 100) as int / (t as int) <= 100) by (nonlinear_arith)
        requires
            done * 100 <= t * 100,
            t > 0,
    ;
    ((done as u128 * 100) / t) as u8
}

/// Number of chunks of `size` bytes needed for `len` bytes.
pub open spec fn chunk_count(len: nat, size: nat) -> nat {
    ((len + size - 1) / (size as int)) as nat
}

/// The `i`-th chunk of `size` bytes of `data` (the last one may be shorter).
pub open spec fn chunk(data: Seq<u8>, size: nat, i: int) -> Seq<u8> {
    let end = if (i + 1) * size < data.len() {
        (i + 1) * size
    } else {
        data.len() as int
    };
    data.subrange(i * size, end)
}

proof fn lemma_chunk_count(i: nat, size: nat, total: nat)
    requires
        size > 0,
        i * size < total,
    ensures
        i < chunk_count(total, size),
        chunk_count(total, size) <= total,
        (i + 1) * size < total ==> i + 1 < chunk_count(total, size),
        (i + 1) * size >= total ==> i + 1 == chunk_count(total, size),
{
    assert(i < chunk_count(total, size)) by (nonlinear_arith)
        requires
            size > 0,
            i * size < total,
            chunk_count(total, size) == (total + size - 1) / (size as int),
    ;
    assert(chunk_count(total, size) <= total) by (nonlinear_arith)
        requires
            size > 0,
            i * size < total,
            chunk_count(total, size) == (total + size - 1) / (size as int),
    ;
    assert((i + 1) * size < total ==> i + 1 < chunk_count(total, size)) by (nonlinear_arith)
        requires
            size > 0,
            chunk_count(total, size) == (total + size - 1) / (size as int),
    ;
    assert((i + 1) * size >= total ==> i + 1 == chunk_count(total, size)) by (nonlinear_arith)
        requires
            size > 0,
            i * size < total,
            chunk_count(total, size) == (total + size - 1) / (size as int),
    ;
}

/// `data` split into chunks of `size` bytes (`data.chunks(size)`).
pub fn split_chunks(data: &[u8], size: usize) -> (r: Vec<Vec<u8>>)
    requires
        size > 0,
    ensures
        r@.len() == chunk_count(data@.len(), size as nat),
        forall|i: int| 0 <= i < r@.len() ==> #[trigger] r@[i]@ == chunk(data@, size as nat, i),
{
    let total: usize = data.len();
    let mut out: Vec<Vec<u8>> = Vec::new();
    let mut start: usize = 0;
    let mut i: usize = 0;
    assert(chunk_count(0, size as nat) == 0) by (nonlinear_arith)
        requires
            size > 0,
            chunk_count(0, size as nat) == (0 + size - 1) / (size as int),
    ;
    if total > 0 {
        proof {
            assert(0 * size == 0) by (nonlinear_arith);
            lemma_chunk_count(0, size as nat, total as nat);
        }
    }
    while start < total
        invariant
            size > 0,
            total == data@.len(),
            start <= total,
            start < total ==> start == i * size && i < chunk_count(total as nat, size as nat),
            start >= total ==> i == chunk_count(total as nat, size as nat),
            out@.len() == i,
            forall|j: int| 0 <= j < i ==> #[trigger] out@[j]@ == chunk(data@, size as nat, j),
        decreases total - start,
    {
        let end: usize = if total - start > size {
            start + size
        } else {
            total
        };
        let mut piece: Vec<u8> = Vec::new();
        let mut k: usize = start;
        while k < end
            invariant
                start <= k <= end <= data@.len(),
                piece@ == data@.subrange(start as int, k as int),
            decreases end - k,
        {
            piece.push(data[k]);
            assert(piece@ =~= data@.subrange(start as int, k + 1));
            k = k + 1;
        }
        assert((i + 1) * size == i * size + size) by (nonlinear_arith);
        assert(piece@ == chunk(data@, size as nat, i as int));
        out.push(piece);
        proof {
            lemma_chunk_count(i as nat, size as nat, total as nat);
        }
        start = end;
        i = i + 1;
    }
    if total == 0 {
        assert(i == 0);
    }
    out
}

/// The chunks `0..n` of `data`, joined in order.
pub open spec fn joined_chunks(data: Seq<u8>, size: nat, n: nat) -> Seq<u8>
    decreases n,
{
    if n == 0 {
        seq![]
    } else {
        joined_chunks(data, size, (n - 1) as nat) + chunk(data, size, n - 1)
    }
}

proof fn lemma_chunk_starts(k: nat, size: nat, len: nat)
    requires
        size > 0,
    ensures
        k < chunk_count(len, size) ==> k * size < len,
        chunk_count(len, size) * size >= len,
        (k + 1) * size == k * size + size,
{
    assert(k < chunk_count(len, size) ==> k * size < len) by (nonlinear_arith)
        requires
            size > 0,
            chunk_count(len, size) == (len + size - 1) / (size as int),
    ;
    assert(chunk_count(len, size) * size >= len) by (nonlinear_arith)
        requires
            size > 0,
            chunk_count(len, size) == (len + size - 1) / (size as int),
    ;
    assert((k + 1) * size == k * size + size) by (nonlinear_arith);
}

proof fn lemma_joined_prefix(data: Seq<u8>, size: nat, n: nat)
    requires
        size > 0,
        n <= chunk_count(data.len(), size),
    ensures
        joined_chunks(data, size, n) == data.take(
            if n * size < data.len() {
                (n * size) as int
            } else {
                data.len() as int
            },
        ),
    decreases n,
{
    if n == 0 {
        assert(0 * size == 0) by (nonlinear_arith);
        assert(data.take(0) =~= Seq::<u8>::empty());
    } else {
        let k = (n - 1) as nat;
        lemma_joined_prefix(data, size, k);
        lemma_chunk_starts(k, size, data.len());
        assert(k * size < data.len());
        let end: int = if n * size < data.len() {
            (n * size) as int
        } else {
            data.len() as int
        };
        let start: int = (k * size) as int;
        assert(joined_chunks(data, size, n) =~= data.take(start) + data.subrange(start, end));
        assert(data.take(start) + data.subrange(start, end) =~= data.take(end));
    }
}

/// Splitting data into chunks of any positive size and joining the chunks in
/// order gives the data back: no byte is lost, repeated or moved.
pub proof fn lemma_chunks_rejoin(data: Seq<u8>, size: nat)
    requires
        size > 0,
    ensures
        joined_chunks(data, size, chunk_count(data.len(), size)) == data,
{
    let n = chunk_count(data.len(), size);
    lemma_joined_prefix(data, size, n);
    lemma_chunk_starts(0, size, data.len());
    assert(data.take(data.len() as int) =~= data);
}

/// Progress never goes back as more steps are done, and the last step of
/// a job reports 100 percent.
pub proof fn lemma_progress_monotone(a: nat, b: nat, total: nat)
    requires
        a <= b,
    ensures
        percent(a, total) <= percent(b, total),
        total > 0 ==> percent(total, total) == 100,
{
    let t: int = if total == 0 {
        1
    } else {
        total as int
    };
    assert(((a * 100) as int) / t <= ((b * 100) as int) / t) by (nonlinear_arith)
        requires
            a <= b,
            t > 0,
    ;
    assert(total > 0 ==> ((total * 100) as int) / (total as int) == 100) by (nonlinear_arith);
}

/// What a job streamed line by line does next.
#[derive(Debug, Clone, Copy, PartialEq, Eq, Structural)]
pub enum StreamStep {
    /// Write the line with this index.
    Write(usize),
    /// Report the end of the job: success, or failure after a write failed.
    Finish(bool),
    /// The end has been reported; nothing is left to do.
    Idle,
}

/// A job streamed line by line: how many lines it has, how many were
/// written, whether a write failed, and whether the end was reported.
pub struct LineStream {
    total: usize,
    written: usize,
    failed: bool,
    reported: bool,
}

/// The next step of a stream: the lines in order while writes succeed; then
/// one report of the end, a failure as soon as a write fails.
pub open spec fn stream_step(total: nat, written: nat, failed: bool, reported: bool) -> StreamStep {
    if reported {
        StreamStep::Idle
    } else if failed {
        StreamStep::Finish(false)
    } else if written < total {
        StreamStep::Write(written as usize)
    } else {
        StreamStep::Finish(true)
    }
}

impl LineStream {
    /// The number of lines.
    pub closed spec fn total(&self) -> nat {
        self.total as nat
    }

    /// The number of lines written.
    pub closed spec fn written(&self) -> nat {
        self.written as nat
    }

    /// Whether a write failed.
    pub closed spec fn failed(&self) -> bool {
        self.failed
    }

    /// Whether the end was reported.
    pub closed spec fn reported(&self) -> bool {
        self.reported
    }

    /// The next step.
    pub open spec fn step(&self) -> StreamStep {
        stream_step(self.total(), self.written(), self.failed(), self.reported())
    }

    /// The stream is in a consistent state.
    pub closed spec fn wf(&self) -> bool {
        self.written <= self.total
    }

    /// A stream of `total` lines, none written.
    pub fn new(total: usize) -> (s: Self)
        ensures
            s.wf(),
            s.total() == total,
            s.written() == 0,
            !s.failed(),
            !s.reported(),
    {
        LineStream { total, written: 0, failed: false, reported: false }
    }

    /// What to do next.
    pub fn next_step(&self) -> (r: StreamStep)
        requires
            self.wf(),
        ensures
            r == self.step(),
    {
        if self.reported {
            StreamStep::Idle
        } else if self.failed {
            StreamStep::Finish(false)
        } else if self.written < self.total {
            StreamStep::Write(self.written)
        } else {
            StreamStep::Finish(true)
        }
    }

    /// Records how the write of the next line went; after a success returns
    /// the progress in percent.
    pub fn line_written(&mut self, ok: bool) -> (pct: Option<u8>)
        requires
            old(self).wf(),
            old(self).step() is Write,
        ensures
            final(self).wf(),
            final(self).total() == old(self).total(),
            final(self).reported() == old(self).reported(),
            ok ==> final(self).written() == old(self).written() + 1 && !final(self).failed()
                && pct == Some(percent(final(self).written(), final(self).total()) as u8),
            !ok ==> final(self).written() == old(self).written() && final(self).failed()
                && pct is None,
    {
        if ok {
            self.written = self.written + 1;
            let p: u8 = progress_percent(self.written, self.total);
            Some(p)
        } else {
            self.failed = true;
            None
        }
    }

    /// Records that the end was reported.
    pub fn end_reported(&mut self)
        requires
            old(self).wf(),
            old(self).step() is Finish,
        ensures
            final(self).wf(),
            final(self).total() == old(self).total(),
            final(self).written() == old(self).written(),
            final(self).failed() == old(self).failed(),
            final(self).reported(),
    {
        self.reported = true;
    }
}

/// A stream reports its end once, and reports success exactly when every
/// line was written: after the report nothing is left to do, and the report
/// is a success only with no failed write and all lines written.
pub proof fn lemma_stream_reports_once(total: nat, written: nat, failed: bool)
    requires
        written <= total,
    ensures
        stream_step(total, written, failed, true) == StreamStep::Idle,
        stream_step(total, written, failed, false) == StreamStep::Finish(true) <==> (!failed
            && written == total),
        stream_step(total, written, failed, false) == StreamStep::Finish(false) <==> failed,
{
}

} // verus!
