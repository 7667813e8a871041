//! GRBL laser / spindle controller: real-time commands, job streaming and
//! response reading.
//!
//! A job is streamed one line per turn of the driver loop; status reports
//! look like `<Idle|MPos:0.000,0.000,0.000|...>` and errors like `error:9`.

use vstd::prelude::*;
use crate::text::{
    chars_equal, char_views, chars_of, push_all, push_str, slice_chars, split_on, split_on_exec, starts_with,
    starts_with_exec, string_of,
};
use crate::device::job::{percent, progress_percent};

verus! {

// ---------------------------------------------------------------------------
// Real-time and system commands
// ---------------------------------------------------------------------------

/// A command the driver sends outside a job.
#[derive(Debug, Clone, Copy, PartialEq, Eq)]
pub enum GrblRequest {
    FeedHold,
    CycleStart,
    SoftReset,
    Home,
    PollStatus,
}

/// The bytes of a request: `!`, `~`, Ctrl-X, `$H` + LF, `?`.
pub open spec fn request_bytes_of(req: GrblRequest) -> Seq<u8> {
    match req {
        GrblRequest::FeedHold => seq![0x21u8],
        GrblRequest::CycleStart => seq![0x7Eu8],
        GrblRequest::SoftReset => seq![0x18u8],
        GrblRequest::Home => seq![0x24u8, 0x48, 0x0A],
        GrblRequest::PollStatus => seq![0x3Fu8],
    }
}

/// The bytes written for a request.
pub fn request_bytes(req: GrblRequest) -> (r: Vec<u8>)
    ensures
        r@ == request_bytes_of(req),
{
    let mut v: Vec<u8> = Vec::new();
    match req {
        GrblRequest::FeedHold => v.push(0x21),
        GrblRequest::CycleStart => v.push(0x7E),
        GrblRequest::SoftReset => v.push(0x18),
        GrblRequest::Home => {
            v.push(0x24);
            v.push(0x48);
            v.push(0x0A);
        },
        GrblRequest::PollStatus => v.push(0x3F),
    }
    assert(v@ =~= request_bytes_of(req));
    v
}

// ---------------------------------------------------------------------------
// Job streaming
// ---------------------------------------------------------------------------

/// What the driver does on its next turn.
#[derive(Debug, Clone, PartialEq, Eq)]
pub enum GrblAction {
    /// Write this text (the next job line and a line feed).
    Send(String),
    /// The last line written has not been answered yet: read responses.
    AwaitReply,
    /// The whole job has been written and answered: report success.
    Finished,
    /// Nothing to do.
    Idle,
}

/// A job being streamed: its lines, how many have been written, and whether
/// the last one written still waits for its `ok` or `error:` reply.
pub struct GrblJob {
    lines: Vec<String>,
    idx: usize,
    awaiting: bool,
}

/// The text of the next action, if it is a line to send.
pub enum ActionModel {
    Send(Seq<char>),
    AwaitReply,
    Finished,
    Idle,
}

/// The action for a job with `lines`, of which `idx` have been written;
/// `awaiting` tells that the last one written has not been answered. A line
/// is written only once the one before it has been answered.
pub open spec fn job_action(lines: Seq<Seq<char>>, idx: nat, awaiting: bool) -> ActionModel {
    if awaiting {
        ActionModel::AwaitReply
    } else if idx < lines.len() {
        ActionModel::Send(lines[idx as int] + "\n"@)
    } else if idx > 0 && idx == lines.len() {
        ActionModel::Finished
    } else {
        ActionModel::Idle
    }
}

/// The text of an action.
pub open spec fn action_view(a: GrblAction) -> ActionModel {
    match a {
        GrblAction::Send(s) => ActionModel::Send(s@),
        GrblAction::AwaitReply => ActionModel::AwaitReply,
        GrblAction::Finished => ActionModel::Finished,
        GrblAction::Idle => ActionModel::Idle,
    }
}

impl GrblJob {
    /// The job lines.
    pub closed spec fn lines(&self) -> Seq<Seq<char>> {
        self.lines@.map_values(|l: String| l@)
    }

    /// How many lines have been written.
    pub closed spec fn sent(&self) -> nat {
        self.idx as nat
    }

    /// Whether the last line written waits for its reply.
    pub closed spec fn awaiting(&self) -> bool {
        self.awaiting
    }

    /// The job is in a consistent state: no more lines written than it has,
    /// and a reply is awaited only after some line was written.
    pub closed spec fn wf(&self) -> bool {
        &&& self.idx <= self.lines@.len()
        &&& self.awaiting ==> self.idx > 0
    }

    /// No job.
    pub fn new() -> (j: Self)
        ensures
            j.wf(),
            j.lines() == Seq::<Seq<char>>::empty(),
            j.sent() == 0,
            !j.awaiting(),
    {
        let j = GrblJob { lines: Vec::new(), idx: 0, awaiting: false };
        assert(j.lines() =~= Seq::<Seq<char>>::empty());
        j
    }

    /// Starts streaming `lines` from the first one (a new job replaces the
    /// previous one).
    pub fn load(&mut self, lines: Vec<String>)
        ensures
            final(self).wf(),
            final(self).lines() == lines@.map_values(|l: String| l@),
            final(self).sent() == 0,
            !final(self).awaiting(),
    {
        self.lines = lines;
        self.idx = 0;
        self.awaiting = false;
    }

    /// Drops the job (on disconnect, and once it has finished).
    pub fn clear(&mut self)
        ensures
            final(self).wf(),
            final(self).lines() == Seq::<Seq<char>>::empty(),
            final(self).sent() == 0,
            !final(self).awaiting(),
    {
        self.lines = Vec::new();
        self.idx = 0;
        self.awaiting = false;
        assert(self.lines() =~= Seq::<Seq<char>>::empty());
    }

    /// What to do next.
    pub fn next_action(&self) -> (a: GrblAction)
        requires
            self.wf(),
        ensures
            action_view(a) == job_action(self.lines(), self.sent(), self.awaiting()),
    {
        if self.awaiting {
            GrblAction::AwaitReply
        } else if self.idx < self.lines.len() {
            let mut t: Vec<char> = chars_of(self.lines[self.idx].as_str());
            push_str(&mut t, "\n");
            GrblAction::Send(string_of(&t))
        } else if self.idx > 0 && self.idx == self.lines.len() {
            GrblAction::Finished
        } else {
            GrblAction::Idle
        }
    }

    /// Records that the next line was written; it now waits for its reply.
    /// Returns the progress in percent.
    pub fn line_sent(&mut self) -> (pct: u8)
        requires
            old(self).wf(),
            !old(self).awaiting(),
            old(self).sent() < old(self).lines().len(),
        ensures
            final(self).wf(),
            final(self).lines() == old(self).lines(),
            final(self).sent() == old(self).sent() + 1,
            final(self).awaiting(),
            pct as nat == percent(final(self).sent(), final(self).lines().len()),
    {
        assert(self.lines().len() == self.lines@.len());
        let n: usize = self.lines.len();
        assert(self.idx < n);
        self.idx = self.idx + 1;
        self.awaiting = true;
        progress_percent(self.idx, self.lines.len())
    }

    /// Takes a response line: an `ok` or `error:` reply answers the line
    /// awaiting it, which lets the next line go; any other response (a status
    /// report, a message) changes nothing.
    pub fn reply_received(&mut self, response: &GrblResponse)
        requires
            old(self).wf(),
        ensures
            final(self).wf(),
            final(self).lines() == old(self).lines(),
            final(self).sent() == old(self).sent(),
            final(self).awaiting() == (old(self).awaiting() && !response.reply),
    {
        if response.reply {
            self.awaiting = false;
        }
    }
}

/// Streaming writes every line once, in order, each only after the one
/// before it was answered: after `k` lines have been written and answered
/// the next action sends line `k`; while a reply is awaited nothing is
/// sent; after the last line is answered the job reports that it has
/// finished.
pub proof fn lemma_job_streams_in_order(lines: Seq<Seq<char>>, k: nat)
    requires
        k <= lines.len(),
    ensures
        k < lines.len() ==> job_action(lines, k, false) == ActionModel::Send(
            lines[k as int] + "\n"@,
        ),
        job_action(lines, k, true) == ActionModel::AwaitReply,
        k == lines.len() && k > 0 ==> job_action(lines, k, false) == ActionModel::Finished,
        lines.len() == 0 ==> job_action(lines, k, false) == ActionModel::Idle,
{
}

// ---------------------------------------------------------------------------
// Responses
// ---------------------------------------------------------------------------

/// `<` or `>`.
pub open spec fn is_angle(c: char) -> bool {
    c == '<' || c == '>'
}

/// `s` without leading `<`/`>` characters.
pub open spec fn strip_angles_start(s: Seq<char>) -> Seq<char>
    decreases s.len(),
{
    if s.len() > 0 && is_angle(s[0]) {
        strip_angles_start(s.drop_first())
    } else {
        s
    }
}

/// `s` without trailing `<`/`>` characters.
pub open spec fn strip_angles_end(s: Seq<char>) -> Seq<char>
    decreases s.len(),
{
    if s.len() > 0 && is_angle(s.last()) {
        strip_angles_end(s.drop_last())
    } else {
        s
    }
}

/// `s.trim_matches(|c| c == '<' || c == '>')`.
pub open spec fn strip_angles(s: Seq<char>) -> Seq<char> {
    strip_angles_end(strip_angles_start(s))
}

fn strip_angles_exec(s: &Vec<char>) -> (r: Vec<char>)
    ensures
        r@ == strip_angles(s@),
{
    let mut i: usize = 0;
    assert(s@.skip(0) =~= s@);
    while i < s.len() && (s[i] == '<' || s[i] == '>')
        invariant
            i <= s@.len(),
            strip_angles_start(s@) == strip_angles_start(s@.skip(i as int)),
        decreases s@.len() - i,
    {
        assert(s@.skip(i as int).drop_first() =~= s@.skip(i + 1));
        i = i + 1;
    }
    let ghost t = s@.skip(i as int);
    let mut end: usize = s.len();
    assert(t.take(t.len() as int) =~= t);
    while end > i && (s[end - 1] == '<' || s[end - 1] == '>')
        invariant
            i <= end <= s@.len(),
            t == s@.skip(i as int),
            strip_angles_end(t) == strip_angles_end(t.take(end - i)),
        decreases end,
    {
        assert(t.take(end - i).drop_last() =~= t.take(end - 1 - i));
        end = end - 1;
    }
    let r: Vec<char> = slice_chars(s, i, end);
    assert(r@ =~= t.take(end - i));
    r
}

/// The machine positions in the status fields `pieces`: every `MPos:x,y,..`
/// field with at least two coordinates gives the text of `x` and `y`.
pub open spec fn positions_in(pieces: Seq<Seq<char>>) -> Seq<(Seq<char>, Seq<char>)>
    decreases pieces.len(),
{
    if pieces.len() == 0 {
        seq![]
    } else {
        let rest = positions_in(pieces.drop_last());
        let p = pieces.last();
        if starts_with(p, "MPos:"@) {
            let nums = split_on(p.skip(5), ',');
            if nums.len() >= 2 {
                rest.push((nums[0], nums[1]))
            } else {
                rest
            }
        } else {
            rest
        }
    }
}

/// What a response line reports.
pub struct GrblResponse {
    /// Machine positions (x and y, as text) from a status report.
    pub positions: Vec<(String, String)>,
    /// A message to show, for an error line.
    pub message: Option<String>,
    /// Whether the line answers a job line: `ok` or `error:...`.
    pub reply: bool,
}

/// Whether a response line answers the job line last written: `ok`, or an
/// error report `error:<code>`.
pub open spec fn is_reply(line: Seq<char>) -> bool {
    line == "ok"@ || starts_with(line, "error:"@)
}

/// The positions a response line reports.
pub open spec fn response_positions(line: Seq<char>) -> Seq<(Seq<char>, Seq<char>)> {
    if starts_with(line, "<"@) {
        positions_in(split_on(strip_angles(line), '|'))
    } else {
        seq![]
    }
}

/// The message a response line reports.
pub open spec fn response_message(line: Seq<char>) -> Option<Seq<char>> {
    if !starts_with(line, "<"@) && starts_with(line, "error:"@) {
        Some("GRBL "@ + line)
    } else {
        None
    }
}

/// The text of a list of positions.
pub open spec fn position_views(v: Seq<(String, String)>) -> Seq<(Seq<char>, Seq<char>)> {
    v.map_values(|p: (String, String)| (p.0@, p.1@))
}

/// Reads a response line: the positions in a status report, the message for
/// an error, and whether it answers a job line.
pub fn parse_grbl_response(line: &str) -> (r: GrblResponse)
    ensures
        position_views(r.positions@) == response_positions(line@),
        r.reply == is_reply(line@),
        match (r.message, response_message(line@)) {
            (Some(m), Some(n)) => m@ == n,
            (None, None) => true,
            _ => false,
        },
{
    let s: Vec<char> = chars_of(line);
    let lt: Vec<char> = chars_of("<");
    let mut positions: Vec<(String, String)> = Vec::new();
    let mut message: Option<String> = None;
    if starts_with_exec(&s, &lt) {
        let inner: Vec<char> = strip_angles_exec(&s);
        let pieces: Vec<Vec<char>> = split_on_exec(&inner, '|');
        let ghost pv = char_views(pieces@);
        let pref: Vec<char> = chars_of("MPos:");
        let mut k: usize = 0;
        while k < pieces.len()
            invariant
                k <= pieces@.len(),
                pv == char_views(pieces@),
                pref@ == "MPos:"@,
                position_views(positions@) == positions_in(pv.take(k as int)),
            decreases pieces@.len() - k,
        {
            proof {
                reveal_strlit("MPos:");
            }
            assert(pv.take(k + 1).drop_last() =~= pv.take(k as int));
            assert(pv.take(k + 1).last() == pieces@[k as int]@);
            if starts_with_exec(&pieces[k], &pref) {
                let rest: Vec<char> = slice_chars(&pieces[k], 5, pieces[k].len());
                assert(rest@ =~= pieces@[k as int]@.skip(5));
                let nums: Vec<Vec<char>> = split_on_exec(&rest, ',');
                if nums.len() >= 2 {
                    let ghost before = position_views(positions@);
                    let x: String = string_of(&nums[0]);
                    let y: String = string_of(&nums[1]);
                    positions.push((x, y));
                    assert(position_views(positions@) =~= before.push(
                        (char_views(nums@)[0], char_views(nums@)[1]),
                    ));
                }
            }
            k = k + 1;
        }
        assert(pv.take(pieces@.len() as int) =~= pv);
    } else {
        let err: Vec<char> = chars_of("error:");
        if starts_with_exec(&s, &err) {
            let mut m: Vec<char> = Vec::new();
            push_str(&mut m, "GRBL ");
            push_all(&mut m, &s);
            message = Some(string_of(&m));
        }
    }
    assert(!starts_with(line@, "<"@) ==> position_views(positions@) =~= Seq::<
        (Seq<char>, Seq<char>),
    >::empty());
    let ok: Vec<char> = chars_of("ok");
    let err: Vec<char> = chars_of("error:");
    let reply: bool = chars_equal(&s, &ok) || starts_with_exec(&s, &err);
    GrblResponse { positions, message, reply }
}


// ---------------------------------------------------------------------------
// Laws on status reports
// ---------------------------------------------------------------------------

/// `s` holds no `c`.
pub open spec fn free_of(s: Seq<char>, c: char) -> bool {
    forall|i: int| 0 <= i < s.len() ==> s[i] != c
}

/// `s` holds no `<` or `>`.
pub open spec fn free_of_angles(s: Seq<char>) -> bool {
    forall|i: int| 0 <= i < s.len() ==> !is_angle(#[trigger] s[i])
}

proof fn lemma_split_on_nonempty(s: Seq<char>, sep: char)
    ensures
        split_on(s, sep).len() >= 1,
    decreases s.len(),
{
    if s.len() > 0 {
        lemma_split_on_nonempty(s.drop_last(), sep);
    }
}

proof fn lemma_split_on_free(s: Seq<char>, sep: char)
    requires
        free_of(s, sep),
    ensures
        split_on(s, sep) == seq![s],
    decreases s.len(),
{
    if s.len() > 0 {
        let d = s.drop_last();
        assert(free_of(d, sep)) by {
            assert forall|i: int| 0 <= i < d.len() implies d[i] != sep by {
                assert(d[i] == s[i]);
            }
        }
        lemma_split_on_free(d, sep);
        assert(s.last() != sep);
        assert(d.push(s.last()) =~= s);
        assert(split_on(s, sep) =~= seq![s]);
    } else {
        assert(s =~= Seq::<char>::empty());
    }
}

proof fn lemma_split_on_join(u: Seq<char>, v: Seq<char>, sep: char)
    ensures
        split_on(u + seq![sep] + v, sep) == split_on(u, sep) + split_on(v, sep),
    decreases v.len(),
{
    let w = u + seq![sep] + v;
    if v.len() == 0 {
        assert(w =~= u.push(sep));
        assert(u.push(sep).drop_last() =~= u);
        assert(split_on(v, sep) == seq![Seq::<char>::empty()]);
        assert(split_on(w, sep) =~= split_on(u, sep) + split_on(v, sep));
    } else {
        let d = v.drop_last();
        lemma_split_on_join(u, d, sep);
        lemma_split_on_nonempty(d, sep);
        assert(w.drop_last() =~= u + seq![sep] + d);
        assert(w.last() == v.last());
        let a = split_on(u, sep);
        let b = split_on(d, sep);
        if v.last() == sep {
            assert(split_on(w, sep) =~= a + b.push(seq![]));
        } else {
            assert((a + b).last() == b.last());
            assert(split_on(w, sep) =~= a + b.update(b.len() - 1, b.last().push(v.last())));
        }
    }
}

proof fn lemma_positions_in_concat(p: Seq<Seq<char>>, q: Seq<Seq<char>>)
    ensures
        positions_in(p + q) == positions_in(p) + positions_in(q),
    decreases q.len(),
{
    if q.len() == 0 {
        assert(p + q =~= p);
        assert(positions_in(p) + positions_in(q) =~= positions_in(p));
    } else {
        let d = q.drop_last();
        lemma_positions_in_concat(p, d);
        assert((p + q).drop_last() =~= p + d);
        assert((p + q).last() == q.last());
        let x = positions_in(p);
        let y = positions_in(d);
        assert forall|e: (Seq<char>, Seq<char>)| #[trigger] (x + y).push(e) == x + y.push(e) by {
            assert((x + y).push(e) =~= x + y.push(e));
        }
        assert(positions_in(p + q) == x + positions_in(q));
    }
}

proof fn lemma_strip_outer_angles(inner: Seq<char>)
    requires
        inner.len() > 0,
        free_of_angles(inner),
    ensures
        strip_angles(seq!['<'] + inner + seq!['>']) == inner,
{
    let line = seq!['<'] + inner + seq!['>'];
    assert(line.len() > 0 && is_angle(line[0]));
    assert(line.drop_first() =~= inner + seq!['>']);
    assert(!is_angle((inner + seq!['>'])[0]));
    assert(strip_angles_start(inner + seq!['>']) == inner + seq!['>']);
    assert(strip_angles_start(line) == strip_angles_start(line.drop_first()));
    assert((inner + seq!['>']).drop_last() =~= inner);
    assert(!is_angle(inner.last()));
    assert(strip_angles_end(inner) == inner);
    assert(is_angle((inner + seq!['>']).last()));
    assert(strip_angles_end(inner + seq!['>']) == strip_angles_end((inner + seq!['>']).drop_last()));
}

proof fn lemma_mpos_field(x: Seq<char>, y: Seq<char>, more: Seq<char>)
    requires
        free_of(x, ','),
        free_of(y, ','),
        more.len() == 0 || more[0] == ',',
    ensures
        positions_in(seq!["MPos:"@ + x + seq![','] + y + more]) == seq![(x, y)],
{
    reveal_strlit("MPos:");
    let field = "MPos:"@ + x + seq![','] + y + more;
    assert(starts_with(field, "MPos:"@)) by {
        assert(field.take(5) =~= "MPos:"@);
    }
    let coords = field.skip(5);
    assert(coords =~= x + seq![','] + (y + more));
    lemma_split_on_join(x, y + more, ',');
    lemma_split_on_free(x, ',');
    lemma_split_on_free(y, ',');
    let ys: Seq<Seq<char>> = if more.len() == 0 {
        assert(y + more =~= y);
        seq![y]
    } else {
        let m2 = more.drop_first();
        assert(y + more =~= y + seq![','] + m2);
        lemma_split_on_join(y, m2, ',');
        seq![y] + split_on(m2, ',')
    };
    let nums = split_on(coords, ',');
    assert(nums =~= seq![x] + ys);
    assert(nums.len() >= 2 && nums[0] == x && nums[1] == y);
    assert(seq![field].drop_last() =~= Seq::<Seq<char>>::empty());
    assert(seq![field].last() == field);
    assert(positions_in(Seq::<Seq<char>>::empty()) == Seq::<(Seq<char>, Seq<char>)>::empty());
    assert(positions_in(seq![field]) =~= seq![(x, y)]);
}

proof fn lemma_mpos_field_free(x: Seq<char>, y: Seq<char>, more: Seq<char>)
    requires
        free_of(x, '|') && free_of(y, '|') && free_of(more, '|'),
        free_of_angles(x) && free_of_angles(y) && free_of_angles(more),
    ensures
        free_of("MPos:"@ + x + seq![','] + y + more, '|'),
        free_of_angles("MPos:"@ + x + seq![','] + y + more),
{
    reveal_strlit("MPos:");
    let field = "MPos:"@ + x + seq![','] + y + more;
    assert forall|i: int| 0 <= i < field.len() implies field[i] != '|' && !is_angle(
        #[trigger] field[i],
    ) by {
        if i < 5 {
            assert(field[i] == "MPos:"@[i]);
        } else if i < 5 + x.len() {
            assert(field[i] == x[i - 5]);
        } else if i == 5 + x.len() {
        } else if i < 6 + x.len() + y.len() {
            assert(field[i] == y[i - 6 - x.len()]);
        } else {
            assert(field[i] == more[i - 6 - x.len() - y.len()]);
        }
    }
}

proof fn lemma_fields_free_of_angles(state: Seq<char>, field: Seq<char>, rest: Seq<char>)
    requires
        free_of_angles(state) && free_of_angles(field) && free_of_angles(rest),
    ensures
        free_of_angles(state + seq!['|'] + (field + rest)),
{
    let inner = state + seq!['|'] + (field + rest);
    assert forall|i: int| 0 <= i < inner.len() implies !is_angle(#[trigger] inner[i]) by {
        if i < state.len() {
            assert(inner[i] == state[i]);
        } else if i == state.len() {
        } else if i < state.len() + 1 + field.len() {
            assert(inner[i] == field[i - state.len() - 1]);
        } else {
            assert(inner[i] == rest[i - state.len() - 1 - field.len()]);
        }
    }
}

/// A status report gives the machine position of its `MPos` field: in a
/// line `<state|MPos:x,y...>`, where the field holds at least the two
/// coordinates `x` and `y` (any further coordinates follow after a comma,
/// and further fields after a `|`), the reported positions include
/// `(x, y)`.
pub proof fn lemma_status_report_position(
    state: Seq<char>,
    x: Seq<char>,
    y: Seq<char>,
    more: Seq<char>,
    rest: Seq<char>,
)
    requires
        free_of(state, '|'),
        free_of(x, '|') && free_of(x, ','),
        free_of(y, '|') && free_of(y, ','),
        free_of(more, '|'),
        more.len() == 0 || more[0] == ',',
        rest.len() == 0 || rest[0] == '|',
        free_of_angles(state) && free_of_angles(x) && free_of_angles(y),
        free_of_angles(more) && free_of_angles(rest),
    ensures
        response_positions(
            seq!['<'] + state + seq!['|'] + "MPos:"@ + x + seq![','] + y + more + rest + seq!['>'],
        ).contains((x, y)),
{
    reveal_strlit("<");
    let field = "MPos:"@ + x + seq![','] + y + more;
    let inner = state + seq!['|'] + (field + rest);
    let line = seq!['<'] + state + seq!['|'] + "MPos:"@ + x + seq![','] + y + more + rest + seq![
        '>',
    ];
    assert(line =~= seq!['<'] + inner + seq!['>']);
    lemma_mpos_field_free(x, y, more);
    lemma_fields_free_of_angles(state, field, rest);
    lemma_strip_outer_angles(inner);
    assert(starts_with(line, "<"@)) by {
        assert(line.take(1) =~= "<"@);
    }
    lemma_split_on_join(state, field + rest, '|');
    lemma_split_on_free(state, '|');
    lemma_split_on_free(field, '|');
    let tail: Seq<Seq<char>> = if rest.len() == 0 {
        assert(field + rest =~= field);
        seq![]
    } else {
        let r2 = rest.drop_first();
        assert(field + rest =~= field + seq!['|'] + r2);
        lemma_split_on_join(field, r2, '|');
        split_on(r2, '|')
    };
    assert(split_on(field + rest, '|') =~= seq![field] + tail);
    let pieces = split_on(inner, '|');
    assert(pieces =~= seq![state] + (seq![field] + tail));
    lemma_positions_in_concat(seq![state], seq![field] + tail);
    lemma_positions_in_concat(seq![field], tail);
    lemma_mpos_field(x, y, more);
    let before = positions_in(seq![state]);
    let all = positions_in(pieces);
    assert(all =~= before + (seq![(x, y)] + positions_in(tail)));
    assert(all[before.len() as int] == (x, y));
}

} // verus!
