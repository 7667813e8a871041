//! Machine-code programs.
//!
//! # HPGL (vinyl cutters)
//! * `IN` – initialise, `SP1` – select blade 1
//! * `VS<n>` – velocity (cm/s), `FS<n>` – blade force (g)
//! * `PU<x>,<y>` – pen up and move, `PD<x>,<y>` – pen down and cut
//!
//! Coordinates are plotter units (1/40 mm). Each path is given as its start
//! point followed by the end point of every segment.
//!
//! # G-code (GRBL, laser mode)
//! * `M3 S<power>` / `M5` – laser on / off, `G0` / `G1` – rapid / cut move
//! * `M8` / `M9` – air assist on / off
//!
//! The program frame, layers, passes and air assist are assembled here; the
//! move commands of each path (coordinates in millimetres) are given as
//! text.

use vstd::prelude::*;
use crate::common::types::DeviceType;
use crate::text::{push_all, push_str, signed_decimal, signed_decimal_chars, decimal, decimal_chars,
    string_of, chars_of};

verus! {

/// Default blade force in grams.
pub const DEFAULT_BLADE_FORCE: u32 = 80;

/// Default cutting speed in cm/s.
pub const DEFAULT_CUTTING_SPEED: u32 = 10;

/// `<cmd><x>,<y>;`.
pub open spec fn hpgl_move(cmd: Seq<char>, p: (i32, i32)) -> Seq<char> {
    cmd + signed_decimal(p.0 as int) + ","@ + signed_decimal(p.1 as int) + ";"@
}

/// The commands of one path: pen up to its start, then pen down to every
/// following point.
pub open spec fn path_commands(path: Seq<(i32, i32)>) -> Seq<Seq<char>>
    decreases path.len(),
{
    if path.len() == 0 {
        seq![]
    } else if path.len() == 1 {
        seq![hpgl_move("PU"@, path[0])]
    } else {
        path_commands(path.drop_last()).push(hpgl_move("PD"@, path.last()))
    }
}

/// The commands of all paths, in order.
pub open spec fn paths_commands(paths: Seq<Seq<(i32, i32)>>) -> Seq<Seq<char>>
    decreases paths.len(),
{
    if paths.len() == 0 {
        seq![]
    } else {
        paths_commands(paths.drop_last()) + path_commands(paths.last())
    }
}

/// One layer of cut paths, and whether it is cut at all.
pub struct HpglLayer {
    pub paths: Vec<Vec<(i32, i32)>>,
    pub enabled: bool,
}

/// The paths of a layer as sequences of points.
pub open spec fn layer_paths(layer: HpglLayer) -> Seq<Seq<(i32, i32)>> {
    layer.paths@.map_values(|p: Vec<(i32, i32)>| p@)
}

/// The commands of all enabled layers, in order; a disabled layer adds none.
pub open spec fn layers_commands(layers: Seq<HpglLayer>) -> Seq<Seq<char>>
    decreases layers.len(),
{
    if layers.len() == 0 {
        seq![]
    } else if layers.last().enabled {
        layers_commands(layers.drop_last()) + paths_commands(layer_paths(layers.last()))
    } else {
        layers_commands(layers.drop_last())
    }
}

/// A complete HPGL program.
pub open spec fn hpgl_program(cutting_speed: u32, blade_force: u32, layers: Seq<HpglLayer>) -> Seq<
    Seq<char>,
> {
    seq![
        "IN;"@,
        "SP1;"@,
        "VS"@ + decimal(cutting_speed as nat) + ";"@,
        "FS"@ + decimal(blade_force as nat) + ";"@,
    ] + layers_commands(layers) + seq!["PU0,0;"@]
}

fn move_command(cmd: &str, p: (i32, i32)) -> (s: String)
    ensures
        s@ == hpgl_move(cmd@, p),
{
    let mut v: Vec<char> = Vec::new();
    push_str(&mut v, cmd);
    let x: Vec<char> = signed_decimal_chars(p.0 as i64);
    push_all(&mut v, &x);
    push_str(&mut v, ",");
    let y: Vec<char> = signed_decimal_chars(p.1 as i64);
    push_all(&mut v, &y);
    push_str(&mut v, ";");
    string_of(&v)
}

fn numbered_command(cmd: &str, n: u32) -> (s: String)
    ensures
        s@ == cmd@ + decimal(n as nat) + ";"@,
{
    let mut v: Vec<char> = Vec::new();
    push_str(&mut v, cmd);
    let d: Vec<char> = decimal_chars(n as u64);
    push_all(&mut v, &d);
    push_str(&mut v, ";");
    string_of(&v)
}

/// The views of a list of strings.
pub open spec fn line_views(v: Seq<String>) -> Seq<Seq<char>> {
    v.map_values(|s: String| s@)
}

/// Appends the commands of the given paths.
fn push_paths(lines: &mut Vec<String>, paths: &Vec<Vec<(i32, i32)>>)
    ensures
        line_views(final(lines)@) == line_views(old(lines)@) + paths_commands(
            paths@.map_values(|p: Vec<(i32, i32)>| p@),
        ),
{
    let ghost pv = paths@.map_values(|p: Vec<(i32, i32)>| p@);
    let ghost head = line_views(lines@);
    let mut i: usize = 0;
    assert(head =~= head + paths_commands(pv.take(0)));
    while i < paths.len()
        invariant
            i <= paths@.len(),
            pv == paths@.map_values(|p: Vec<(i32, i32)>| p@),
            line_views(lines@) == head + paths_commands(pv.take(i as int)),
        decreases paths@.len() - i,
    {
        let path: &Vec<(i32, i32)> = &paths[i];
        let ghost base = line_views(lines@);
        let mut j: usize = 0;
        assert(path@.take(0) =~= Seq::<(i32, i32)>::empty());
        assert(base =~= base + path_commands(path@.take(0)));
        while j < path.len()
            invariant
                j <= path@.len(),
                line_views(lines@) == base + path_commands(path@.take(j as int)),
            decreases path@.len() - j,
        {
            let ghost before = line_views(lines@);
            let cmd: String = if j == 0 {
                move_command("PU", path[j])
            } else {
                move_command("PD", path[j])
            };
            lines.push(cmd);
            assert(path@.take(j + 1).drop_last() =~= path@.take(j as int));
            assert(path@.take(j + 1).last() == path@[j as int]);
            assert(line_views(lines@) =~= before.push(cmd@));
            assert(line_views(lines@) =~= base + path_commands(path@.take(j + 1)));
            j = j + 1;
        }
        assert(path@.take(path@.len() as int) =~= path@);
        assert(pv.take(i + 1).drop_last() =~= pv.take(i as int));
        assert(pv.take(i + 1).last() == path@);
        assert(line_views(lines@) =~= head + paths_commands(pv.take(i + 1)));
        i = i + 1;
    }
    assert(pv.take(paths@.len() as int) =~= pv);
}

/// Generates the HPGL program for the given layers, with the given cutting
/// speed and blade force. Disabled layers are skipped.
pub fn generate_hpgl(cutting_speed: u32, blade_force: u32, layers: &Vec<HpglLayer>) -> (r: Vec<
    String,
>)
    ensures
        line_views(r@) == hpgl_program(cutting_speed, blade_force, layers@),
{
    let mut lines: Vec<String> = Vec::new();
    lines.push("IN;".to_owned());
    lines.push("SP1;".to_owned());
    lines.push(numbered_command("VS", cutting_speed));
    lines.push(numbered_command("FS", blade_force));
    let ghost head = line_views(lines@);
    assert(head =~= seq![
        "IN;"@,
        "SP1;"@,
        "VS"@ + decimal(cutting_speed as nat) + ";"@,
        "FS"@ + decimal(blade_force as nat) + ";"@,
    ]);
    let mut k: usize = 0;
    assert(head =~= head + layers_commands(layers@.take(0)));
    while k < layers.len()
        invariant
            k <= layers@.len(),
            line_views(lines@) == head + layers_commands(layers@.take(k as int)),
        decreases layers@.len() - k,
    {
        let layer: &HpglLayer = &layers[k];
        assert(layers@.take(k + 1).drop_last() =~= layers@.take(k as int));
        assert(layers@.take(k + 1).last() == *layer);
        if layer.enabled {
            push_paths(&mut lines, &layer.paths);
            assert(line_views(lines@) =~= head + layers_commands(layers@.take(k + 1)));
        }
        k = k + 1;
    }
    assert(layers@.take(layers@.len() as int) =~= layers@);
    let ghost body = line_views(lines@);
    lines.push("PU0,0;".to_owned());
    assert(line_views(lines@) =~= body.push("PU0,0;"@));
    lines
}

/// One layer of a G-code job: its name, whether it is cut, whether air
/// assist is switched on for it, how many passes it takes, and the command
/// lines of each of its paths.
pub struct GcodeLayer {
    pub name: String,
    pub enabled: bool,
    pub air_assist: bool,
    pub passes: u32,
    pub paths: Vec<Vec<String>>,
}

/// The lines of all paths, in order.
pub open spec fn paths_lines(paths: Seq<Seq<Seq<char>>>) -> Seq<Seq<char>>
    decreases paths.len(),
{
    if paths.len() == 0 {
        seq![]
    } else {
        paths_lines(paths.drop_last()) + paths.last()
    }
}

/// The path lines of a layer as text.
pub open spec fn gcode_layer_paths(l: GcodeLayer) -> Seq<Seq<Seq<char>>> {
    l.paths@.map_values(|p: Vec<String>| line_views(p@))
}

/// The first `k` passes of a layer: each all its paths, headed by
/// `; Pass <i>/<n>` when there is more than one pass.
pub open spec fn passes_lines(l: GcodeLayer, k: nat) -> Seq<Seq<char>>
    decreases k,
{
    if k == 0 {
        seq![]
    } else {
        passes_lines(l, (k - 1) as nat) + (if l.passes > 1 {
            seq!["; Pass "@ + decimal(k) + "/"@ + decimal(l.passes as nat)]
        } else {
            seq![]
        }) + paths_lines(gcode_layer_paths(l))
    }
}

/// The lines of one layer; none for a disabled layer.
pub open spec fn gcode_layer_lines(l: GcodeLayer) -> Seq<Seq<char>> {
    if !l.enabled {
        seq![]
    } else {
        seq!["; Layer: "@ + l.name@] + (if l.air_assist {
            seq!["M8  ; air assist on"@]
        } else {
            seq![]
        }) + passes_lines(l, l.passes as nat) + (if l.air_assist {
            seq!["M9  ; air assist off"@]
        } else {
            seq![]
        })
    }
}

/// The lines of all layers, in order.
pub open spec fn gcode_layers_lines(layers: Seq<GcodeLayer>) -> Seq<Seq<char>>
    decreases layers.len(),
{
    if layers.len() == 0 {
        seq![]
    } else {
        gcode_layers_lines(layers.drop_last()) + gcode_layer_lines(layers.last())
    }
}

/// A complete G-code program.
pub open spec fn gcode_program(layers: Seq<GcodeLayer>) -> Seq<Seq<char>> {
    seq![
        "; SnartCut generated G-code"@,
        "G21       ; units mm"@,
        "G90       ; absolute positioning"@,
        "G0 X0 Y0  ; home"@,
        "M5        ; laser off"@,
    ] + gcode_layers_lines(layers) + seq!["M5        ; laser off"@, "G0 X0 Y0  ; return home"@]
}

/// Appends copies of `src` to `dst`.
fn push_lines(dst: &mut Vec<String>, src: &Vec<String>)
    ensures
        line_views(final(dst)@) == line_views(old(dst)@) + line_views(src@),
{
    let ghost base = line_views(dst@);
    let mut k: usize = 0;
    while k < src.len()
        invariant
            k <= src@.len(),
            line_views(dst@) == base + line_views(src@.take(k as int)),
        decreases src@.len() - k,
    {
        let ghost before = line_views(dst@);
        dst.push(src[k].clone());
        assert(line_views(dst@) =~= before.push(src@[k as int]@));
        assert(line_views(src@.take(k + 1)) =~= line_views(src@.take(k as int)).push(
            src@[k as int]@,
        ));
        k = k + 1;
    }
    assert(src@.take(src@.len() as int) =~= src@);
}

/// Appends the lines of one pass of a layer.
fn push_pass(dst: &mut Vec<String>, l: &GcodeLayer, pass: u32)
    requires
        pass < l.passes,
    ensures
        line_views(final(dst)@) == line_views(old(dst)@) + (if l.passes > 1 {
            seq!["; Pass "@ + decimal((pass + 1) as nat) + "/"@ + decimal(l.passes as nat)]
        } else {
            seq![]
        }) + paths_lines(gcode_layer_paths(*l)),
{
    let ghost base = line_views(dst@);
    if l.passes > 1 {
        let mut v: Vec<char> = Vec::new();
        push_str(&mut v, "; Pass ");
        let a: Vec<char> = decimal_chars((pass + 1) as u64);
        push_all(&mut v, &a);
        push_str(&mut v, "/");
        let b: Vec<char> = decimal_chars(l.passes as u64);
        push_all(&mut v, &b);
        dst.push(string_of(&v));
        assert(line_views(dst@) =~= base.push(v@));
    }
    let ghost head = line_views(dst@);
    let ghost pv = gcode_layer_paths(*l);
    let mut i: usize = 0;
    while i < l.paths.len()
        invariant
            i <= l.paths@.len(),
            pv == gcode_layer_paths(*l),
            line_views(dst@) == head + paths_lines(pv.take(i as int)),
        decreases l.paths@.len() - i,
    {
        push_lines(dst, &l.paths[i]);
        assert(pv.take(i + 1).drop_last() =~= pv.take(i as int));
        assert(line_views(dst@) =~= head + paths_lines(pv.take(i + 1)));
        i = i + 1;
    }
    assert(pv.take(l.paths@.len() as int) =~= pv);
}

/// Generates the G-code program for the given layers. Disabled layers are
/// skipped.
pub fn generate_gcode(layers: &Vec<GcodeLayer>) -> (r: Vec<String>)
    ensures
        line_views(r@) == gcode_program(layers@),
{
    let mut lines: Vec<String> = Vec::new();
    lines.push("; SnartCut generated G-code".to_owned());
    lines.push("G21       ; units mm".to_owned());
    lines.push("G90       ; absolute positioning".to_owned());
    lines.push("G0 X0 Y0  ; home".to_owned());
    lines.push("M5        ; laser off".to_owned());
    let ghost head = line_views(lines@);
    let mut k: usize = 0;
    assert(head =~= head + gcode_layers_lines(layers@.take(0)));
    while k < layers.len()
        invariant
            k <= layers@.len(),
            line_views(lines@) == head + gcode_layers_lines(layers@.take(k as int)),
        decreases layers@.len() - k,
    {
        let l: &GcodeLayer = &layers[k];
        let ghost start = line_views(lines@);
        assert(layers@.take(k + 1).drop_last() =~= layers@.take(k as int));
        assert(layers@.take(k + 1).last() == *l);
        if l.enabled {
            let mut t: Vec<char> = Vec::new();
            push_str(&mut t, "; Layer: ");
            let nc: Vec<char> = chars_of(l.name.as_str());
            push_all(&mut t, &nc);
            let title: String = string_of(&t);
            lines.push(title);
            assert(line_views(lines@) =~= start.push("; Layer: "@ + l.name@));
            if l.air_assist {
                let ghost before = line_views(lines@);
                lines.push("M8  ; air assist on".to_owned());
                assert(line_views(lines@) =~= before.push("M8  ; air assist on"@));
            }
            let ghost mid = line_views(lines@);
            assert(mid =~= start + seq!["; Layer: "@ + l.name@] + (if l.air_assist {
                seq!["M8  ; air assist on"@]
            } else {
                seq![]
            }));
            let mut pass: u32 = 0;
            while pass < l.passes
                invariant
                    pass <= l.passes,
                    line_views(lines@) == mid + passes_lines(*l, pass as nat),
                decreases l.passes - pass,
            {
                push_pass(&mut lines, l, pass);
                pass = pass + 1;
            }
            let ghost after = line_views(lines@);
            if l.air_assist {
                lines.push("M9  ; air assist off".to_owned());
                assert(line_views(lines@) =~= after.push("M9  ; air assist off"@));
            }
            assert(line_views(lines@) =~= start + gcode_layer_lines(*l));
        }
        assert(line_views(lines@) =~= head + gcode_layers_lines(layers@.take(k + 1)));
        k = k + 1;
    }
    assert(layers@.take(layers@.len() as int) =~= layers@);
    let ghost body = line_views(lines@);
    lines.push("M5        ; laser off".to_owned());
    lines.push("G0 X0 Y0  ; return home".to_owned());
    assert(line_views(lines@) =~= body + seq!["M5        ; laser off"@, "G0 X0 Y0  ; return home"@]);
    lines
}

/// The program language a machine type is sent.
#[derive(Debug, Clone, Copy, PartialEq, Eq, Structural)]
pub enum ProgramLanguage {
    Hpgl,
    Gcode,
}

/// The program language of a machine type: HPGL for a vinyl cutter, G-code
/// for every other type.
pub fn program_language(device_type: DeviceType) -> (r: ProgramLanguage)
    ensures
        r == (if device_type == DeviceType::VinylCutter {
            ProgramLanguage::Hpgl
        } else {
            ProgramLanguage::Gcode
        }),
{
    match device_type {
        DeviceType::VinylCutter => ProgramLanguage::Hpgl,
        _ => ProgramLanguage::Gcode,
    }
}


// ---------------------------------------------------------------------------
// Laws
// ---------------------------------------------------------------------------

proof fn lemma_path_commands_shape(p: Seq<(i32, i32)>)
    ensures
        path_commands(p).len() == p.len(),
        p.len() > 0 ==> path_commands(p)[0] == hpgl_move("PU"@, p[0]),
        forall|j: int| 1 <= j < p.len() ==> #[trigger] path_commands(p)[j] == hpgl_move("PD"@, p[j]),
    decreases p.len(),
{
    if p.len() > 1 {
        lemma_path_commands_shape(p.drop_last());
        assert forall|j: int| 1 <= j < p.len() implies #[trigger] path_commands(p)[j] == hpgl_move(
            "PD"@,
            p[j],
        ) by {
            if j < p.len() - 1 {
                assert(path_commands(p)[j] == path_commands(p.drop_last())[j]);
                assert(p.drop_last()[j] == p[j]);
            }
        }
        assert(path_commands(p)[0] == path_commands(p.drop_last())[0]);
    }
}

/// Every path of an HPGL program is cut on its own: the commands of a path
/// added after others follow theirs unchanged, one per point; the first lifts
/// the blade and moves to the path's start, and each later one cuts to the
/// next point. An empty path adds nothing.
pub proof fn lemma_path_starts_pen_up(a: Seq<Seq<(i32, i32)>>, p: Seq<(i32, i32)>)
    ensures
        paths_commands(a.push(p)).len() == paths_commands(a).len() + p.len(),
        paths_commands(a.push(p)).take(paths_commands(a).len() as int) == paths_commands(a),
        p.len() > 0 ==> paths_commands(a.push(p))[paths_commands(a).len() as int] == hpgl_move(
            "PU"@,
            p[0],
        ),
        forall|j: int|
            1 <= j < p.len() ==> #[trigger] paths_commands(a.push(p))[paths_commands(a).len() + j]
                == hpgl_move("PD"@, p[j]),
{
    lemma_path_commands_shape(p);
    assert(a.push(p).drop_last() =~= a);
    let c = paths_commands(a);
    assert(paths_commands(a.push(p)) == c + path_commands(p));
    assert((c + path_commands(p)).take(c.len() as int) =~= c);
    assert forall|j: int| 1 <= j < p.len() implies #[trigger] paths_commands(a.push(p))[c.len() + j]
        == hpgl_move("PD"@, p[j]) by {
        assert((c + path_commands(p))[c.len() + j] == path_commands(p)[j]);
    }
}

/// Whether an HPGL layer is cut.
pub open spec fn hpgl_enabled(l: HpglLayer) -> bool {
    l.enabled
}

/// Whether a G-code layer is cut.
pub open spec fn gcode_enabled(l: GcodeLayer) -> bool {
    l.enabled
}

proof fn lemma_hpgl_layers_filter(layers: Seq<HpglLayer>)
    ensures
        layers_commands(layers) == layers_commands(layers.filter(|l: HpglLayer| hpgl_enabled(l))),
    decreases layers.len(),
{
    reveal(Seq::filter);
    if layers.len() > 0 {
        let f = |l: HpglLayer| hpgl_enabled(l);
        lemma_hpgl_layers_filter(layers.drop_last());
        let sub = layers.drop_last().filter(f);
        if layers.last().enabled {
            assert(layers.filter(f) == sub.push(layers.last()));
            assert(sub.push(layers.last()).drop_last() =~= sub);
        } else {
            assert(layers.filter(f) == sub);
        }
    }
}

/// A disabled layer adds nothing to an HPGL program: the program for a list
/// of layers is the program for its enabled layers alone.
pub proof fn lemma_hpgl_disabled_layers_skipped(
    cutting_speed: u32,
    blade_force: u32,
    layers: Seq<HpglLayer>,
)
    ensures
        hpgl_program(cutting_speed, blade_force, layers) == hpgl_program(
            cutting_speed,
            blade_force,
            layers.filter(|l: HpglLayer| hpgl_enabled(l)),
        ),
{
    lemma_hpgl_layers_filter(layers);
}

proof fn lemma_gcode_layers_filter(layers: Seq<GcodeLayer>)
    ensures
        gcode_layers_lines(layers) == gcode_layers_lines(
            layers.filter(|l: GcodeLayer| gcode_enabled(l)),
        ),
    decreases layers.len(),
{
    reveal(Seq::filter);
    if layers.len() > 0 {
        let f = |l: GcodeLayer| gcode_enabled(l);
        lemma_gcode_layers_filter(layers.drop_last());
        let sub = layers.drop_last().filter(f);
        if layers.last().enabled {
            assert(layers.filter(f) == sub.push(layers.last()));
            assert(sub.push(layers.last()).drop_last() =~= sub);
        } else {
            assert(layers.filter(f) == sub);
            assert(gcode_layer_lines(layers.last()) =~= seq![]);
            assert(gcode_layers_lines(layers) =~= gcode_layers_lines(layers.drop_last()));
        }
    }
}

/// A disabled layer adds no line to a G-code program, whatever its name,
/// air assist, passes and paths: the program for a list of layers is the
/// program for its enabled layers alone, and a program of disabled layers
/// only is the bare frame.
pub proof fn lemma_gcode_disabled_layers_skipped(layers: Seq<GcodeLayer>)
    ensures
        gcode_program(layers) == gcode_program(layers.filter(|l: GcodeLayer| gcode_enabled(l))),
        (forall|i: int| 0 <= i < layers.len() ==> !#[trigger] layers[i].enabled) ==> gcode_program(
            layers,
        ) == gcode_program(seq![]),
{
    lemma_gcode_layers_filter(layers);
    if forall|i: int| 0 <= i < layers.len() ==> !#[trigger] layers[i].enabled {
        let f = |l: GcodeLayer| gcode_enabled(l);
        layers.lemma_filter_len(f);
        if layers.filter(f).len() > 0 {
            let e = layers.filter(f)[0];
            layers.lemma_filter_pred(f, 0);
            assert(layers.filter(f).contains(e));
            layers.lemma_filter_contains_rev(f, e);
            let k = choose|k: int| 0 <= k < layers.len() && layers[k] == e;
            assert(!layers[k].enabled);
        }
        assert(layers.filter(f) =~= seq![]);
    }
}

/// The lines of an enabled layer: its heading, air assist on, every pass,
/// air assist off.
pub proof fn lemma_gcode_enabled_layer_lines(l: GcodeLayer)
    requires
        l.enabled,
    ensures
        gcode_layer_lines(l).len() > 0,
        gcode_layer_lines(l)[0] == "; Layer: "@ + l.name@,
        l.air_assist ==> gcode_layer_lines(l)[1] == "M8  ; air assist on"@,
        l.air_assist ==> gcode_layer_lines(l).last() == "M9  ; air assist off"@,
{
}

/// An HPGL program initialises the cutter, selects the blade, sets the
/// cutting speed and blade force, cuts the enabled layers, and ends with the
/// blade raised at the origin.
pub proof fn lemma_hpgl_frame(cutting_speed: u32, blade_force: u32, layers: Seq<HpglLayer>)
    ensures
        ({
            let prog = hpgl_program(cutting_speed, blade_force, layers);
            &&& prog.len() == layers_commands(layers).len() + 5
            &&& prog[0] == "IN;"@
            &&& prog[1] == "SP1;"@
            &&& prog[2] == "VS"@ + decimal(cutting_speed as nat) + ";"@
            &&& prog[3] == "FS"@ + decimal(blade_force as nat) + ";"@
            &&& prog.subrange(4, prog.len() - 1) == layers_commands(layers)
            &&& prog.last() == "PU0,0;"@
        }),
{
    let prog = hpgl_program(cutting_speed, blade_force, layers);
    assert(prog.subrange(4, prog.len() - 1) =~= layers_commands(layers));
}

/// Each pass of a layer repeats all its paths, headed by a pass line when
/// the layer has more than one pass: `k` passes take `k` times as many lines
/// as one.
pub proof fn lemma_passes_repeat_paths(l: GcodeLayer, k: nat)
    ensures
        passes_lines(l, k).len() == k * (paths_lines(gcode_layer_paths(l)).len() + (if l.passes > 1 {
            1int
        } else {
            0int
        })),
        k > 0 ==> passes_lines(l, k).subrange(
            passes_lines(l, k).len() - paths_lines(gcode_layer_paths(l)).len(),
            passes_lines(l, k).len() as int,
        ) == paths_lines(gcode_layer_paths(l)),
    decreases k,
{
    let body = paths_lines(gcode_layer_paths(l));
    let h: int = if l.passes > 1 { 1 } else { 0 };
    if k > 0 {
        lemma_passes_repeat_paths(l, (k - 1) as nat);
        assert((k - 1) * (body.len() + h) + h + body.len() == k * (body.len() + h)) by (nonlinear_arith);
        let pl = passes_lines(l, k);
        let prev = passes_lines(l, (k - 1) as nat);
        let hdr: Seq<Seq<char>> = if l.passes > 1 {
            seq!["; Pass "@ + decimal(k) + "/"@ + decimal(l.passes as nat)]
        } else {
            seq![]
        };
        assert(hdr.len() == h);
        assert(pl == prev + hdr + body);
        assert(pl.len() == prev.len() + h + body.len());
        assert(pl.subrange(pl.len() - body.len(), pl.len() as int) =~= body);
    } else {
        assert(k * (body.len() + h) == 0) by (nonlinear_arith)
            requires
                k == 0,
        ;
    }
}

} // verus!
