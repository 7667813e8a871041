//! DXF import: group-code reading and entity collection.
//!
//! DXF is a text format of group-code / value line pairs. A pair with group
//! code 0 starts a record; its value names the record's kind. A `SECTION`
//! record whose name (group code 2) is `ENTITIES` opens the entities section,
//! and the next `SECTION` or an `ENDSEC` record closes it. Inside it, every
//! `LINE`, `CIRCLE`, `ARC` and `LWPOLYLINE` record gives one entity; the
//! vertices of a polyline are its 10/20 pairs.
//! Coordinates are kept as the text that carried them: converting them to
//! numbers (and to path geometry) is left to the caller.

use vstd::prelude::*;
use crate::text::{chars_equal, chars_of, opt_view, parse_i32, parse_i32_chars, string_of, trim,
    trim_chars};

verus! {

// ---------------------------------------------------------------------------
// Group-code reader
// ---------------------------------------------------------------------------

/// Reads (group code, value) pairs from the lines of a DXF file.
pub struct DxfReader {
    /// The lines read so far, without their line ends.
    lines: Vec<String>,
    /// Position of the next line to read.
    pos: usize,
    /// Whether reading failed right after the last line held here.
    read_failed: bool,
}

/// A line as `read_line` gives it: the line at `pos`, or an empty line at the
/// end of the input, or a failure.
pub open spec fn line_at(lines: Seq<Seq<char>>, failed: bool, pos: int) -> Option<Seq<char>> {
    if 0 <= pos < lines.len() {
        Some(lines[pos])
    } else if failed {
        None
    } else {
        Some(seq![])
    }
}

/// The pair read at line `pos`: a code line that parses as an integer once
/// trimmed, and the trimmed value line.
pub open spec fn pair_at(lines: Seq<Seq<char>>, failed: bool, pos: int) -> Option<(i32, Seq<char>)> {
    match (line_at(lines, failed, pos), line_at(lines, failed, pos + 1)) {
        (Some(c), Some(v)) => match parse_i32(trim(c)) {
            Some(code) => Some((code as i32, trim(v))),
            None => None,
        },
        _ => None,
    }
}

/// All pairs from line `pos` on, up to the first line that does not read as
/// a pair.
pub open spec fn pairs_from(lines: Seq<Seq<char>>, failed: bool, pos: int) -> Seq<(i32, Seq<char>)>
    decreases lines.len() + 1 - pos,
{
    if pos < 0 || pos >= lines.len() {
        seq![]
    } else {
        match pair_at(lines, failed, pos) {
            Some(p) => seq![p] + pairs_from(lines, failed, pos + 2),
            None => seq![],
        }
    }
}

impl DxfReader {
    /// The lines held, as text.
    pub closed spec fn line_views(&self) -> Seq<Seq<char>> {
        self.lines@.map_values(|l: String| l@)
    }

    /// The pairs this reader still yields.
    pub closed spec fn remaining(&self) -> Seq<(i32, Seq<char>)> {
        pairs_from(self.line_views(), self.read_failed, self.pos as int)
    }

    /// A reader over the lines of a file; `read_failed` tells that reading
    /// stopped on an error after the last line given.
    pub fn new(lines: Vec<String>, read_failed: bool) -> (r: Self)
        ensures
            r.remaining() == pairs_from(lines@.map_values(|l: String| l@), read_failed, 0),
    {
        DxfReader { lines, pos: 0, read_failed }
    }

    fn line(&self, pos: usize) -> (r: Option<String>)
        ensures
            opt_view(r) == line_at(self.line_views(), self.read_failed, pos as int),
    {
        if pos < self.lines.len() {
            Some(self.lines[pos].clone())
        } else if self.read_failed {
            None
        } else {
            Some(String::new())
        }
    }

    /// Reads the next (group code, value) pair.
    pub fn next_pair(&mut self) -> (r: Option<(i32, String)>)
        ensures
            old(self).remaining().len() == 0 ==> r is None && final(self).remaining() == old(
                self,
            ).remaining(),
            old(self).remaining().len() > 0 ==> (r matches Some((code, value)) && (code, value@)
                == old(self).remaining()[0] && final(self).remaining() == old(
                self,
            ).remaining().drop_first()),
    {
        if self.pos >= self.lines.len() {
            return None;
        }
        let code_line: Option<String> = self.line(self.pos);
        let value_line: Option<String> = if self.pos + 1 < self.lines.len() {
            self.line(self.pos + 1)
        } else if self.read_failed {
            None
        } else {
            Some(String::new())
        };
        match (code_line, value_line) {
            (Some(c), Some(v)) => {
                let cc: Vec<char> = chars_of(c.as_str());
                let ct: Vec<char> = trim_chars(&cc);
                match parse_i32_chars(&ct) {
                    Some(code) => {
                        let vc: Vec<char> = chars_of(v.as_str());
                        let vt: Vec<char> = trim_chars(&vc);
                        let value: String = string_of(&vt);
                        let ghost before = self.remaining();
                        let ghost old_pos = self.pos as int;
                        assert(pair_at(self.line_views(), self.read_failed, old_pos) == Some(
                            (code, value@),
                        ));
                        assert(before == seq![(code, value@)] + pairs_from(
                            self.line_views(),
                            self.read_failed,
                            old_pos + 2,
                        ));
                        self.pos = if self.pos + 1 < self.lines.len() {
                            self.pos + 2
                        } else {
                            self.lines.len()
                        };
                        assert(pairs_from(self.line_views(), self.read_failed, old_pos + 2)
                            == self.remaining());
                        assert(before =~= seq![(code, value@)] + self.remaining());
                        assert(before.drop_first() =~= self.remaining());
                        Some((code, value))
                    },
                    None => None,
                }
            },
            _ => None,
        }
    }
}

// ---------------------------------------------------------------------------
// Entity collection
// ---------------------------------------------------------------------------

/// A number field as it was last given: `None` until a value is read
/// (the field then has its default), otherwise the value text.
pub type DxfNumber = Option<String>;

/// An entity collected from the `ENTITIES` section. Number fields hold the
/// value text last given for their group code.
#[derive(Debug, Clone)]
pub enum DxfEntity {
    /// Group codes 10/20 (start) and 11/21 (end).
    Line { x1: DxfNumber, y1: DxfNumber, x2: DxfNumber, y2: DxfNumber },
    /// Group codes 10/20 (centre) and 40 (radius).
    Circle { cx: DxfNumber, cy: DxfNumber, r: DxfNumber },
    /// Group codes 10/20, 40, and 50/51 (start and end angle in degrees;
    /// the end angle defaults to 360).
    Arc { cx: DxfNumber, cy: DxfNumber, r: DxfNumber, start_deg: DxfNumber, end_deg: DxfNumber },
    /// Vertices and whether bit 0 of group code 70 marks the polyline closed.
    LwPolyline { vertices: Vec<(DxfNumber, String)>, closed: bool },
}

/// The text of an entity.
pub enum EntityModel {
    Line { x1: Option<Seq<char>>, y1: Option<Seq<char>>, x2: Option<Seq<char>>, y2: Option<Seq<char>> },
    Circle { cx: Option<Seq<char>>, cy: Option<Seq<char>>, r: Option<Seq<char>> },
    Arc {
        cx: Option<Seq<char>>,
        cy: Option<Seq<char>>,
        r: Option<Seq<char>>,
        start_deg: Option<Seq<char>>,
        end_deg: Option<Seq<char>>,
    },
    LwPolyline { vertices: Seq<(Option<Seq<char>>, Seq<char>)>, closed: bool },
}

/// The text of a vertex list.
pub open spec fn vertex_views(v: Seq<(DxfNumber, String)>) -> Seq<(Option<Seq<char>>, Seq<char>)> {
    v.map_values(|p: (DxfNumber, String)| (opt_view(p.0), p.1@))
}

impl View for DxfEntity {
    type V = EntityModel;

    open spec fn view(&self) -> EntityModel {
        match self {
            DxfEntity::Line { x1, y1, x2, y2 } => EntityModel::Line {
                x1: opt_view(*x1),
                y1: opt_view(*y1),
                x2: opt_view(*x2),
                y2: opt_view(*y2),
            },
            DxfEntity::Circle { cx, cy, r } => EntityModel::Circle {
                cx: opt_view(*cx),
                cy: opt_view(*cy),
                r: opt_view(*r),
            },
            DxfEntity::Arc { cx, cy, r, start_deg, end_deg } => EntityModel::Arc {
                cx: opt_view(*cx),
                cy: opt_view(*cy),
                r: opt_view(*r),
                start_deg: opt_view(*start_deg),
                end_deg: opt_view(*end_deg),
            },
            DxfEntity::LwPolyline { vertices, closed } => EntityModel::LwPolyline {
                vertices: vertex_views(vertices@),
                closed: *closed,
            },
        }
    }
}

/// The records of a run of pairs: each starts at a pair with group code 0,
/// whose value is the record's kind, and holds the pairs after it up to the
/// next code 0. Pairs before the first code 0 belong to no record.
pub open spec fn records(pairs: Seq<(i32, Seq<char>)>) -> Seq<(Seq<char>, Seq<(i32, Seq<char>)>)>
    decreases pairs.len(),
{
    if pairs.len() == 0 {
        seq![]
    } else {
        let rs = records(pairs.drop_last());
        let p = pairs.last();
        if p.0 == 0 {
            rs.push((p.1, seq![]))
        } else if rs.len() == 0 {
            rs
        } else {
            rs.update(rs.len() - 1, (rs.last().0, rs.last().1.push(p)))
        }
    }
}

/// The value of the last pair with group code `code` among `fields`.
pub open spec fn last_value(fields: Seq<(i32, Seq<char>)>, code: i32) -> Option<Seq<char>>
    decreases fields.len(),
{
    if fields.len() == 0 {
        None
    } else if fields.last().0 == code {
        Some(fields.last().1)
    } else {
        last_value(fields.drop_last(), code)
    }
}

/// The vertices of a polyline record: one per pair with group code 20, its
/// y value paired with the x value of the last code 10 before it.
pub open spec fn polyline_vertices(fields: Seq<(i32, Seq<char>)>) -> Seq<(Option<Seq<char>>, Seq<char>)>
    decreases fields.len(),
{
    if fields.len() == 0 {
        seq![]
    } else {
        let v = polyline_vertices(fields.drop_last());
        if fields.last().0 == 20 {
            v.push((last_value(fields.drop_last(), 10), fields.last().1))
        } else {
            v
        }
    }
}

/// The flags of a polyline record: the last value of group code 70 as an
/// integer, or 0.
pub open spec fn polyline_flags(fields: Seq<(i32, Seq<char>)>) -> i32 {
    match last_value(fields, 70) {
        Some(t) => match parse_i32(t) {
            Some(f) => f as i32,
            None => 0,
        },
        None => 0,
    }
}

/// One of the entity kinds that is collected.
pub open spec fn collected_type(v: Seq<char>) -> bool {
    v == "LINE"@ || v == "CIRCLE"@ || v == "ARC"@ || v == "LWPOLYLINE"@
}

/// The entity a record of the entities section makes: a line, circle or arc
/// from the last values of its group codes, a polyline from its vertices
/// (closed when bit 0 of its flags is set) if it has any; nothing for other
/// kinds.
pub open spec fn record_entity(kind: Seq<char>, fields: Seq<(i32, Seq<char>)>) -> Option<EntityModel> {
    if kind == "LINE"@ {
        Some(
            EntityModel::Line {
                x1: last_value(fields, 10),
                y1: last_value(fields, 20),
                x2: last_value(fields, 11),
                y2: last_value(fields, 21),
            },
        )
    } else if kind == "CIRCLE"@ {
        Some(
            EntityModel::Circle {
                cx: last_value(fields, 10),
                cy: last_value(fields, 20),
                r: last_value(fields, 40),
            },
        )
    } else if kind == "ARC"@ {
        Some(
            EntityModel::Arc {
                cx: last_value(fields, 10),
                cy: last_value(fields, 20),
                r: last_value(fields, 40),
                start_deg: last_value(fields, 50),
                end_deg: last_value(fields, 51),
            },
        )
    } else if kind == "LWPOLYLINE"@ && polyline_vertices(fields).len() > 0 {
        Some(
            EntityModel::LwPolyline {
                vertices: polyline_vertices(fields),
                closed: polyline_flags(fields) % 2 != 0,
            },
        )
    } else {
        None
    }
}

/// Whether the entities section is open after the given records: the last
/// `SECTION` or `ENDSEC` record decides, and a `SECTION` opens it when its
/// name (the last value of group code 2) is `ENTITIES`.
pub open spec fn entities_open(rs: Seq<(Seq<char>, Seq<(i32, Seq<char>)>)>) -> bool
    decreases rs.len(),
{
    if rs.len() == 0 {
        false
    } else if rs.last().0 == "SECTION"@ {
        last_value(rs.last().1, 2) == Some("ENTITIES"@)
    } else if rs.last().0 == "ENDSEC"@ {
        false
    } else {
        entities_open(rs.drop_last())
    }
}

/// The entities made by the given records, in order: each record inside the
/// entities section gives its entity, if it makes one.
pub open spec fn record_entities(rs: Seq<(Seq<char>, Seq<(i32, Seq<char>)>)>) -> Seq<EntityModel>
    decreases rs.len(),
{
    if rs.len() == 0 {
        seq![]
    } else {
        let prev = record_entities(rs.drop_last());
        if entities_open(rs.drop_last()) {
            match record_entity(rs.last().0, rs.last().1) {
                Some(e) => prev.push(e),
                None => prev,
            }
        } else {
            prev
        }
    }
}

/// The entities of a file's pairs: those of its complete records. A record
/// is complete once the next record starts; the one still open when the
/// pairs end makes nothing.
pub open spec fn dxf_entities(pairs: Seq<(i32, Seq<char>)>) -> Seq<EntityModel> {
    let rs = records(pairs);
    if rs.len() == 0 {
        seq![]
    } else {
        record_entities(rs.drop_last())
    }
}

/// What the scanner keeps of the pairs read so far.
#[verifier::ext_equal]
struct ScanModel {
    started: bool,
    open: bool,
    section_record: bool,
    kind: Option<Seq<char>>,
    x10: Option<Seq<char>>,
    x20: Option<Seq<char>>,
    x11: Option<Seq<char>>,
    x21: Option<Seq<char>>,
    x40: Option<Seq<char>>,
    x50: Option<Seq<char>>,
    x51: Option<Seq<char>>,
    vertices: Seq<(Option<Seq<char>>, Seq<char>)>,
    flags: i32,
}

/// The state at the start of a file.
spec fn initial_scan() -> ScanModel {
    ScanModel {
        started: false,
        open: false,
        section_record: false,
        kind: None,
        x10: None,
        x20: None,
        x11: None,
        x21: None,
        x40: None,
        x50: None,
        x51: None,
        vertices: seq![],
        flags: 0,
    }
}

/// What the scanner keeps after reading records `rs`: whether the section is
/// open, and of the last record its kind (when it is collected inside the
/// section) and its last values.
spec fn model_of(rs: Seq<(Seq<char>, Seq<(i32, Seq<char>)>)>) -> ScanModel {
    if rs.len() == 0 {
        initial_scan()
    } else {
        let k = rs.last().0;
        let f = rs.last().1;
        ScanModel {
            started: true,
            open: entities_open(rs),
            section_record: k == "SECTION"@,
            kind: if entities_open(rs.drop_last()) && collected_type(k) {
                Some(k)
            } else {
                None
            },
            x10: last_value(f, 10),
            x20: last_value(f, 20),
            x11: last_value(f, 11),
            x21: last_value(f, 21),
            x40: last_value(f, 40),
            x50: last_value(f, 50),
            x51: last_value(f, 51),
            vertices: polyline_vertices(f),
            flags: polyline_flags(f),
        }
    }
}

/// The entity the pending record makes.
spec fn built(m: ScanModel) -> Option<EntityModel> {
    match m.kind {
        Some(k) => if k == "LINE"@ {
            Some(EntityModel::Line { x1: m.x10, y1: m.x20, x2: m.x11, y2: m.x21 })
        } else if k == "CIRCLE"@ {
            Some(EntityModel::Circle { cx: m.x10, cy: m.x20, r: m.x40 })
        } else if k == "ARC"@ {
            Some(
                EntityModel::Arc { cx: m.x10, cy: m.x20, r: m.x40, start_deg: m.x50, end_deg: m.x51 },
            )
        } else if k == "LWPOLYLINE"@ && m.vertices.len() > 0 {
            Some(EntityModel::LwPolyline { vertices: m.vertices, closed: m.flags % 2 != 0 })
        } else {
            None
        },
        None => None,
    }
}

/// One pair: the new state and the entity it completes, if any.
spec fn scan_step(m: ScanModel, code: i32, v: Seq<char>) -> (ScanModel, Option<EntityModel>) {
    if code == 0 {
        (
            ScanModel {
                started: true,
                open: if v == "SECTION"@ || v == "ENDSEC"@ {
                    false
                } else {
                    m.open
                },
                section_record: v == "SECTION"@,
                kind: if m.open && collected_type(v) {
                    Some(v)
                } else {
                    None
                },
                ..initial_scan()
            },
            built(m),
        )
    } else if !m.started {
        (m, None)
    } else if code == 2 {
        if m.section_record {
            (ScanModel { open: v == "ENTITIES"@, ..m }, None)
        } else {
            (m, None)
        }
    } else if code == 10 {
        (ScanModel { x10: Some(v), ..m }, None)
    } else if code == 20 {
        (ScanModel { x20: Some(v), vertices: m.vertices.push((m.x10, v)), ..m }, None)
    } else if code == 11 {
        (ScanModel { x11: Some(v), ..m }, None)
    } else if code == 21 {
        (ScanModel { x21: Some(v), ..m }, None)
    } else if code == 40 {
        (ScanModel { x40: Some(v), ..m }, None)
    } else if code == 50 {
        (ScanModel { x50: Some(v), ..m }, None)
    } else if code == 51 {
        (ScanModel { x51: Some(v), ..m }, None)
    } else if code == 70 {
        (
            ScanModel {
                flags: match parse_i32(v) {
                    Some(f) => f as i32,
                    None => 0,
                },
                ..m
            },
            None,
        )
    } else {
        (m, None)
    }
}

/// Reading one more pair moves the kept state as [`scan_step`] does, and
/// adds the entity it completes.
proof fn lemma_scan_step(p: Seq<(i32, Seq<char>)>, x: (i32, Seq<char>))
    ensures
        model_of(records(p.push(x))) == scan_step(model_of(records(p)), x.0, x.1).0,
        dxf_entities(p.push(x)) == match scan_step(model_of(records(p)), x.0, x.1).1 {
            Some(e) => dxf_entities(p).push(e),
            None => dxf_entities(p),
        },
{
    let q = p.push(x);
    assert(q.drop_last() =~= p);
    let rs = records(p);
    let rq = records(q);
    let m = model_of(rs);
    if x.0 == 0 {
        assert(rq.drop_last() =~= rs);
        assert(rq.last().1 =~= Seq::<(i32, Seq<char>)>::empty());
        assert(polyline_vertices(rq.last().1) =~= Seq::<(Option<Seq<char>>, Seq<char>)>::empty());
        assert(model_of(rq) =~= scan_step(m, x.0, x.1).0);
        if rs.len() > 0 {
            let f = rs.last().1;
            assert(record_entities(rs) == (if entities_open(rs.drop_last()) {
                match record_entity(rs.last().0, f) {
                    Some(e) => record_entities(rs.drop_last()).push(e),
                    None => record_entities(rs.drop_last()),
                }
            } else {
                record_entities(rs.drop_last())
            }));
        }
    } else if rs.len() == 0 {
        assert(rq == rs);
    } else {
        let f = rs.last().1;
        let g = f.push(x);
        assert(rq.drop_last() =~= rs.drop_last());
        assert(rq.last() == (rs.last().0, g));
        assert(g.drop_last() =~= f);
        assert(model_of(rq) =~= scan_step(m, x.0, x.1).0);
    }
}

/// The collecting state machine.
struct DxfScanner {
    started: bool,
    open: bool,
    section_record: bool,
    kind: Option<String>,
    x10: DxfNumber,
    x20: DxfNumber,
    x11: DxfNumber,
    x21: DxfNumber,
    x40: DxfNumber,
    x50: DxfNumber,
    x51: DxfNumber,
    vertices: Vec<(DxfNumber, String)>,
    flags: i32,
}

fn clone_opt(o: &Option<String>) -> (r: Option<String>)
    ensures
        opt_view(r) == opt_view(*o),
{
    match o {
        Some(s) => Some(s.clone()),
        None => None,
    }
}

fn is_literal(v: &Vec<char>, lit: &str) -> (r: bool)
    ensures
        r == (v@ == lit@),
{
    let l: Vec<char> = chars_of(lit);
    chars_equal(v, &l)
}

fn clone_vertices(v: &Vec<(DxfNumber, String)>) -> (r: Vec<(DxfNumber, String)>)
    ensures
        vertex_views(r@) == vertex_views(v@),
{
    let mut out: Vec<(DxfNumber, String)> = Vec::new();
    let mut k: usize = 0;
    while k < v.len()
        invariant
            k <= v@.len(),
            vertex_views(out@) == vertex_views(v@).take(k as int),
        decreases v@.len() - k,
    {
        let ghost before = vertex_views(out@);
        let item: (DxfNumber, String) = (clone_opt(&v[k].0), v[k].1.clone());
        out.push(item);
        assert(vertex_views(out@) =~= before.push(vertex_views(v@)[k as int]));
        assert(vertex_views(v@).take(k + 1) =~= vertex_views(v@).take(k as int).push(
            vertex_views(v@)[k as int],
        ));
        k = k + 1;
    }
    assert(vertex_views(v@).take(v@.len() as int) =~= vertex_views(v@));
    out
}

impl DxfScanner {
    spec fn model(&self) -> ScanModel {
        ScanModel {
            started: self.started,
            open: self.open,
            section_record: self.section_record,
            kind: opt_view(self.kind),
            x10: opt_view(self.x10),
            x20: opt_view(self.x20),
            x11: opt_view(self.x11),
            x21: opt_view(self.x21),
            x40: opt_view(self.x40),
            x50: opt_view(self.x50),
            x51: opt_view(self.x51),
            vertices: vertex_views(self.vertices@),
            flags: self.flags,
        }
    }

    fn new() -> (s: Self)
        ensures
            s.model() == initial_scan(),
    {
        let s = DxfScanner {
            started: false,
            open: false,
            section_record: false,
            kind: None,
            x10: None,
            x20: None,
            x11: None,
            x21: None,
            x40: None,
            x50: None,
            x51: None,
            vertices: Vec::new(),
            flags: 0,
        };
        assert(s.model() =~= initial_scan());
        s
    }

    fn build(&self) -> (r: Option<DxfEntity>)
        ensures
            match (r, built(self.model())) {
                (Some(e), Some(m)) => e@ == m,
                (None, None) => true,
                _ => false,
            },
    {
        match &self.kind {
            Some(t) => {
                let tc: Vec<char> = chars_of(t.as_str());
                if is_literal(&tc, "LINE") {
                    Some(
                        DxfEntity::Line {
                            x1: clone_opt(&self.x10),
                            y1: clone_opt(&self.x20),
                            x2: clone_opt(&self.x11),
                            y2: clone_opt(&self.x21),
                        },
                    )
                } else if is_literal(&tc, "CIRCLE") {
                    Some(
                        DxfEntity::Circle {
                            cx: clone_opt(&self.x10),
                            cy: clone_opt(&self.x20),
                            r: clone_opt(&self.x40),
                        },
                    )
                } else if is_literal(&tc, "ARC") {
                    Some(
                        DxfEntity::Arc {
                            cx: clone_opt(&self.x10),
                            cy: clone_opt(&self.x20),
                            r: clone_opt(&self.x40),
                            start_deg: clone_opt(&self.x50),
                            end_deg: clone_opt(&self.x51),
                        },
                    )
                } else if is_literal(&tc, "LWPOLYLINE") && self.vertices.len() > 0 {
                    Some(
                        DxfEntity::LwPolyline {
                            vertices: clone_vertices(&self.vertices),
                            closed: self.flags % 2 != 0,
                        },
                    )
                } else {
                    None
                }
            },
            None => None,
        }
    }

    /// Takes one (group code, value) pair; returns the entity it completes.
    fn feed(&mut self, code: i32, value: String) -> (r: Option<DxfEntity>)
        ensures
            final(self).model() == scan_step(old(self).model(), code, value@).0,
            match (r, scan_step(old(self).model(), code, value@).1) {
                (Some(e), Some(m)) => e@ == m,
                (None, None) => true,
                _ => false,
            },
    {
        let vc: Vec<char> = chars_of(value.as_str());
        if code == 0 {
            let done: Option<DxfEntity> = self.build();
            let is_section: bool = is_literal(&vc, "SECTION");
            let open: bool = if is_section || is_literal(&vc, "ENDSEC") {
                false
            } else {
                self.open
            };
            let collected: bool = is_literal(&vc, "LINE") || is_literal(&vc, "CIRCLE")
                || is_literal(&vc, "ARC") || is_literal(&vc, "LWPOLYLINE");
            let kind: Option<String> = if self.open && collected {
                Some(value)
            } else {
                None
            };
            *self = DxfScanner {
                started: true,
                open,
                section_record: is_section,
                kind,
                x10: None,
                x20: None,
                x11: None,
                x21: None,
                x40: None,
                x50: None,
                x51: None,
                vertices: Vec::new(),
                flags: 0,
            };
            assert(self.model() =~= scan_step(old(self).model(), code, vc@).0);
            done
        } else if !self.started {
            None
        } else if code == 2 {
            if self.section_record {
                self.open = is_literal(&vc, "ENTITIES");
            }
            None
        } else if code == 10 {
            self.x10 = Some(value);
            None
        } else if code == 20 {
            let ghost before = vertex_views(self.vertices@);
            let lx: DxfNumber = clone_opt(&self.x10);
            self.x20 = Some(value.clone());
            self.vertices.push((lx, value));
            assert(vertex_views(self.vertices@) =~= before.push((opt_view(self.x10), vc@)));
            None
        } else if code == 11 {
            self.x11 = Some(value);
            None
        } else if code == 21 {
            self.x21 = Some(value);
            None
        } else if code == 40 {
            self.x40 = Some(value);
            None
        } else if code == 50 {
            self.x50 = Some(value);
            None
        } else if code == 51 {
            self.x51 = Some(value);
            None
        } else if code == 70 {
            self.flags = match parse_i32_chars(&vc) {
                Some(f) => f,
                None => 0,
            };
            None
        } else {
            None
        }
    }
}

/// The entities of a DXF file, read pair by pair until the first line that
/// does not read as a pair.
pub fn load_reader(reader: DxfReader) -> (r: Vec<DxfEntity>)
    ensures
        r@.map_values(|e: DxfEntity| e@) == dxf_entities(reader.remaining()),
{
    let mut rdr: DxfReader = reader;
    let ghost all = reader.remaining();
    let mut scanner: DxfScanner = DxfScanner::new();
    let mut out: Vec<DxfEntity> = Vec::new();
    let ghost mut done: nat = 0;
    assert(all.take(0) =~= Seq::<(i32, Seq<char>)>::empty());
    assert(records(all.take(0)) =~= Seq::<(Seq<char>, Seq<(i32, Seq<char>)>)>::empty());
    assert(out@.map_values(|e: DxfEntity| e@) =~= Seq::<EntityModel>::empty());
    loop
        invariant
            done <= all.len(),
            rdr.remaining() == all.skip(done as int),
            scanner.model() == model_of(records(all.take(done as int))),
            out@.map_values(|e: DxfEntity| e@) == dxf_entities(all.take(done as int)),
        ensures
            out@.map_values(|e: DxfEntity| e@) == dxf_entities(all),
        decreases all.len() - done,
    {
        let ghost before = rdr.remaining();
        match rdr.next_pair() {
            Some((code, value)) => {
                proof {
                    assert(all.take(done + 1 as int) =~= all.take(done as int).push((code, value@)));
                    assert(all.skip(done + 1 as int) =~= before.drop_first());
                    lemma_scan_step(all.take(done as int), (code, value@));
                }
                let ghost prev_out = out@.map_values(|e: DxfEntity| e@);
                match scanner.feed(code, value) {
                    Some(e) => {
                        out.push(e);
                        assert(out@.map_values(|e: DxfEntity| e@) =~= prev_out.push(e@));
                    },
                    None => {},
                }
                proof {
                    done = done + 1;
                }
            },
            None => {
                assert(all.take(done as int) =~= all);
                break;
            },
        }
    }
    out
}


// ---------------------------------------------------------------------------
// Laws
// ---------------------------------------------------------------------------

/// The value given for a group code is that of the last pair with the code:
/// a pair with the code that no later pair overrides gives it, and a record
/// without the code gives none.
pub proof fn lemma_last_value_is_last_pair(fields: Seq<(i32, Seq<char>)>, code: i32, k: int)
    ensures
        0 <= k < fields.len() && fields[k].0 == code && (forall|m: int|
            k < m < fields.len() ==> #[trigger] fields[m].0 != code) ==> last_value(fields, code)
            == Some(fields[k].1),
        (forall|m: int| 0 <= m < fields.len() ==> #[trigger] fields[m].0 != code) ==> last_value(
            fields,
            code,
        ) is None,
    decreases fields.len(),
{
    if fields.len() > 0 {
        let d = fields.drop_last();
        lemma_last_value_is_last_pair(d, code, k);
        if 0 <= k < fields.len() && fields[k].0 == code && (forall|m: int|
            k < m < fields.len() ==> #[trigger] fields[m].0 != code) {
            if k < fields.len() - 1 {
                assert(fields.last().0 != code);
                assert(d[k] == fields[k]);
                assert forall|m: int| k < m < d.len() implies #[trigger] d[m].0 != code by {
                    assert(d[m] == fields[m]);
                }
            }
        }
        if forall|m: int| 0 <= m < fields.len() ==> #[trigger] fields[m].0 != code {
            assert(fields[fields.len() - 1].0 != code);
            assert forall|m: int| 0 <= m < d.len() implies #[trigger] d[m].0 != code by {
                assert(d[m] == fields[m]);
            }
        }
    }
}

/// A line, circle or arc record takes each of its numbers from the value
/// given for that number's group code: a line its start (10/20) and end
/// (11/21), a circle its centre (10/20) and radius (40), an arc its centre,
/// radius, start angle (50) and end angle (51).
pub proof fn lemma_entity_numbers(fields: Seq<(i32, Seq<char>)>)
    ensures
        record_entity("LINE"@, fields) == Some(
            EntityModel::Line {
                x1: last_value(fields, 10),
                y1: last_value(fields, 20),
                x2: last_value(fields, 11),
                y2: last_value(fields, 21),
            },
        ),
        record_entity("CIRCLE"@, fields) == Some(
            EntityModel::Circle {
                cx: last_value(fields, 10),
                cy: last_value(fields, 20),
                r: last_value(fields, 40),
            },
        ),
        record_entity("ARC"@, fields) == Some(
            EntityModel::Arc {
                cx: last_value(fields, 10),
                cy: last_value(fields, 20),
                r: last_value(fields, 40),
                start_deg: last_value(fields, 50),
                end_deg: last_value(fields, 51),
            },
        ),
{
    reveal_strlit("LINE");
    reveal_strlit("CIRCLE");
    reveal_strlit("ARC");
    assert("LINE"@.len() == 4 && "CIRCLE"@.len() == 6 && "ARC"@.len() == 3);
    assert("CIRCLE"@ != "LINE"@);
    assert("ARC"@ != "LINE"@ && "ARC"@ != "CIRCLE"@);
}

/// A polyline record gives a polyline of its vertices when it has any,
/// closed exactly when bit 0 of its flags (the last group code 70) is set;
/// without vertices it gives nothing.
pub proof fn lemma_polyline_entity(fields: Seq<(i32, Seq<char>)>)
    ensures
        polyline_vertices(fields).len() > 0 ==> record_entity("LWPOLYLINE"@, fields) == Some(
            EntityModel::LwPolyline {
                vertices: polyline_vertices(fields),
                closed: polyline_flags(fields) % 2 != 0,
            },
        ),
        polyline_vertices(fields).len() == 0 ==> record_entity("LWPOLYLINE"@, fields) is None,
        last_value(fields, 70) is None ==> polyline_flags(fields) == 0,
        last_value(fields, 70) matches Some(t) ==> (parse_i32(t) matches Some(f) ==> polyline_flags(
            fields,
        ) == f as i32),
{
    reveal_strlit("LINE");
    reveal_strlit("CIRCLE");
    reveal_strlit("ARC");
    reveal_strlit("LWPOLYLINE");
    assert("LWPOLYLINE"@.len() == 10 && "LINE"@.len() == 4 && "CIRCLE"@.len() == 6 && "ARC"@.len()
        == 3);
}

/// Records inside the entities section each add their entity, in order; an
/// `ENDSEC` record, or a `SECTION` record of another name, closes the
/// section, so that no record after it adds anything until an `ENTITIES`
/// section opens again.
pub proof fn lemma_section_bounds(
    rs: Seq<(Seq<char>, Seq<(i32, Seq<char>)>)>,
    closing: (Seq<char>, Seq<(i32, Seq<char>)>),
    r: (Seq<char>, Seq<(i32, Seq<char>)>),
)
    ensures
        entities_open(rs) ==> record_entities(rs.push(r)) == (match record_entity(r.0, r.1) {
            Some(e) => record_entities(rs).push(e),
            None => record_entities(rs),
        }),
        !entities_open(rs) ==> record_entities(rs.push(r)) == record_entities(rs),
        closing.0 == "ENDSEC"@ || (closing.0 == "SECTION"@ && last_value(closing.1, 2) != Some(
            "ENTITIES"@,
        )) ==> !entities_open(rs.push(closing)) && record_entities(rs.push(closing).push(r))
            == record_entities(rs.push(closing)),
        closing.0 == "SECTION"@ && last_value(closing.1, 2) == Some("ENTITIES"@) ==> entities_open(
            rs.push(closing),
        ),
{
    assert(rs.push(r).drop_last() =~= rs);
    assert(rs.push(closing).drop_last() =~= rs);
    assert(rs.push(closing).push(r).drop_last() =~= rs.push(closing));
    reveal_strlit("ENDSEC");
    reveal_strlit("SECTION");
    assert("ENDSEC"@.len() != "SECTION"@.len());
}

/// A polyline has one vertex per pair with group code 20, in order: its y is
/// that pair's value and its x the value of the last code 10 pair before it.
/// Other pairs add no vertex.
pub proof fn lemma_polyline_vertex_added(fields: Seq<(i32, Seq<char>)>, pair: (i32, Seq<char>))
    ensures
        pair.0 == 20 ==> polyline_vertices(fields.push(pair)) == polyline_vertices(fields).push(
            (last_value(fields, 10), pair.1),
        ),
        pair.0 != 20 ==> polyline_vertices(fields.push(pair)) == polyline_vertices(fields),
{
    assert(fields.push(pair).drop_last() =~= fields);
}

/// The pairs at the start of a file whose entities section opens with a
/// record of kind `kind`.
pub open spec fn entities_file_head(kind: Seq<char>) -> Seq<(i32, Seq<char>)> {
    seq![(0i32, "SECTION"@), (2i32, "ENTITIES"@), (0i32, kind)]
}

proof fn lemma_records_of_head(kind: Seq<char>, fields: Seq<(i32, Seq<char>)>)
    requires
        forall|i: int| 0 <= i < fields.len() ==> #[trigger] fields[i].0 != 0,
    ensures
        records(entities_file_head(kind) + fields) == seq![
            ("SECTION"@, seq![(2i32, "ENTITIES"@)]),
            (kind, fields),
        ],
    decreases fields.len(),
{
    let h = entities_file_head(kind);
    if fields.len() == 0 {
        assert(h + fields =~= h);
        assert(h.drop_last() =~= seq![(0i32, "SECTION"@), (2i32, "ENTITIES"@)]);
        assert(h.drop_last().drop_last() =~= seq![(0i32, "SECTION"@)]);
        assert(h.drop_last().drop_last().drop_last() =~= Seq::<(i32, Seq<char>)>::empty());
        assert(seq![(0i32, "SECTION"@)].drop_last() =~= Seq::<(i32, Seq<char>)>::empty());
        assert(records(Seq::<(i32, Seq<char>)>::empty()) =~= seq![]);
        assert(records(seq![(0i32, "SECTION"@)]) =~= seq![("SECTION"@, Seq::<(i32, Seq<char>)>::empty())]);
        assert(records(h.drop_last()) =~= seq![("SECTION"@, seq![(2i32, "ENTITIES"@)])]);
        assert(h.last() == (0i32, kind));
        assert(fields =~= Seq::<(i32, Seq<char>)>::empty());
        assert(records(h) == records(h.drop_last()).push((kind, Seq::<(i32, Seq<char>)>::empty())));
        assert(records(h) =~= seq![("SECTION"@, seq![(2i32, "ENTITIES"@)]), (kind, fields)]);
    } else {
        let d = fields.drop_last();
        assert forall|i: int| 0 <= i < d.len() implies #[trigger] d[i].0 != 0 by {
            assert(d[i] == fields[i]);
        }
        lemma_records_of_head(kind, d);
        assert((h + fields).drop_last() =~= h + d);
        assert((h + fields).last() == fields.last());
        assert(fields.last().0 != 0);
        assert(d.push(fields.last()) =~= fields);
        let rs = records(h + d);
        assert(records(h + fields) == rs.update(rs.len() - 1, (rs.last().0, rs.last().1.push(fields.last()))));
        assert(records(h + fields) =~= seq![("SECTION"@, seq![(2i32, "ENTITIES"@)]), (kind, fields)]);
    }
}

/// A file with one entities section holding one line, circle, arc or
/// polyline record, then the end of the file, gives exactly the entity that
/// record makes: `0 SECTION / 2 ENTITIES / 0 <kind> / <fields> / 0 ENDSEC /
/// 0 EOF`, where the fields hold no group code 0.
pub proof fn lemma_single_entity_file(kind: Seq<char>, fields: Seq<(i32, Seq<char>)>)
    requires
        collected_type(kind),
        forall|i: int| 0 <= i < fields.len() ==> #[trigger] fields[i].0 != 0,
    ensures
        dxf_entities(entities_file_head(kind) + fields + seq![(0i32, "ENDSEC"@), (0i32, "EOF"@)])
            == (match record_entity(kind, fields) {
            Some(e) => seq![e],
            None => seq![],
        }),
{
    reveal_strlit("LINE");
    reveal_strlit("CIRCLE");
    reveal_strlit("ARC");
    reveal_strlit("LWPOLYLINE");
    reveal_strlit("SECTION");
    reveal_strlit("ENDSEC");
    reveal_strlit("ENTITIES");
    let h = entities_file_head(kind);
    let sec = ("SECTION"@, seq![(2i32, "ENTITIES"@)]);
    let rec = (kind, fields);
    let endsec: (Seq<char>, Seq<(i32, Seq<char>)>) = ("ENDSEC"@, seq![]);
    lemma_records_of_head(kind, fields);
    let pairs = h + fields + seq![(0i32, "ENDSEC"@), (0i32, "EOF"@)];
    assert(pairs.drop_last() =~= (h + fields).push((0i32, "ENDSEC"@)));
    assert((h + fields).push((0i32, "ENDSEC"@)).drop_last() =~= h + fields);
    assert(records(pairs.drop_last()) =~= seq![sec, rec, endsec]);
    assert(records(pairs) =~= seq![sec, rec, endsec, ("EOF"@, Seq::<(i32, Seq<char>)>::empty())]);
    let rs = seq![sec, rec, endsec];
    assert(records(pairs).drop_last() =~= rs);
    assert(rs.drop_last() =~= seq![sec, rec]);
    assert(seq![sec, rec].drop_last() =~= seq![sec]);
    assert(seq![sec].drop_last() =~= Seq::<(Seq<char>, Seq<(i32, Seq<char>)>)>::empty());
    assert(seq![(2i32, "ENTITIES"@)].drop_last() =~= Seq::<(i32, Seq<char>)>::empty());
    assert(last_value(seq![(2i32, "ENTITIES"@)], 2) == Some("ENTITIES"@));
    assert(seq![sec].last() == sec);
    assert(seq![sec].len() == 1);
    assert(seq![sec].last().0 == "SECTION"@);
    assert(seq![sec].last().1 == seq![(2i32, "ENTITIES"@)]);
    assert(entities_open(seq![sec]) == (last_value(seq![sec].last().1, 2) == Some("ENTITIES"@)));
    assert(entities_open(seq![sec]));
    let none: Seq<(Seq<char>, Seq<(i32, Seq<char>)>)> = Seq::empty();
    assert(!entities_open(none));
    assert(record_entities(none) == Seq::<EntityModel>::empty());
    assert(seq![sec].drop_last() == none);
    assert(record_entities(seq![sec]) =~= seq![]);
    assert("CIRCLE"@[0] != "ENDSEC"@[0]);
    assert("LINE"@.len() != "SECTION"@.len() && "LINE"@.len() != "ENDSEC"@.len());
    assert("ARC"@.len() != "SECTION"@.len() && "ARC"@.len() != "ENDSEC"@.len());
    assert("LWPOLYLINE"@.len() != "SECTION"@.len() && "LWPOLYLINE"@.len() != "ENDSEC"@.len());
    assert("CIRCLE"@.len() != "SECTION"@.len() && "CIRCLE"@ != "ENDSEC"@);
    assert(kind != "SECTION"@ && kind != "ENDSEC"@);
    assert(entities_open(seq![sec, rec]));
    assert(record_entity("ENDSEC"@, seq![]) is None);
    assert(seq![sec, rec].last() == rec);
    assert(rs.last() == endsec);
    let one: Seq<EntityModel> = match record_entity(kind, fields) {
        Some(e) => seq![e],
        None => seq![],
    };
    assert(record_entities(seq![sec, rec]) =~= one);
    assert(record_entities(rs) =~= one);
    assert(dxf_entities(pairs) == record_entities(records(pairs).drop_last()));
}

} // verus!
