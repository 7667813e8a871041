use snart_laser::gcode::generator::{generate_hpgl, HpglLayer, DEFAULT_BLADE_FORCE, DEFAULT_CUTTING_SPEED};

#[test]
fn hpgl_program_for_enabled_layers() {
    let layers = vec![
        HpglLayer { paths: vec![vec![(0, 0), (40, 0), (40, -40)]], enabled: true },
        HpglLayer { paths: vec![vec![(1, 1), (2, 2)]], enabled: false },
        HpglLayer { paths: vec![vec![], vec![(7, 8)]], enabled: true },
    ];
    let out = generate_hpgl(DEFAULT_CUTTING_SPEED, DEFAULT_BLADE_FORCE, &layers);
    assert_eq!(
        out,
        vec![
            "IN;", "SP1;", "VS10;", "FS80;", "PU0,0;", "PD40,0;", "PD40,-40;", "PU7,8;", "PU0,0;",
        ]
    );
}

#[test]
fn hpgl_program_without_layers() {
    let out = generate_hpgl(25, 120, &Vec::new());
    assert_eq!(out, vec!["IN;", "SP1;", "VS25;", "FS120;", "PU0,0;"]);
}

#[test]
fn hpgl_extreme_coordinates() {
    let layers = vec![HpglLayer { paths: vec![vec![(i32::MIN, i32::MAX)]], enabled: true }];
    let out = generate_hpgl(0, 0, &layers);
    assert_eq!(out[4], "PU-2147483648,2147483647;");
}

use snart_laser::common::types::DeviceType;
use snart_laser::gcode::generator::{generate_gcode, program_language, GcodeLayer, ProgramLanguage};

fn path(lines: &[&str]) -> Vec<String> {
    lines.iter().map(|s| s.to_string()).collect()
}

#[test]
fn gcode_program_layers_and_passes() {
    let layers = vec![
        GcodeLayer {
            name: "Cut".to_owned(),
            enabled: true,
            air_assist: true,
            passes: 2,
            paths: vec![path(&["G0 X0.000 Y0.000", "M3 S900", "G1 X1.000 Y0.000 F600", "M5"])],
        },
        GcodeLayer { name: "Off".to_owned(), enabled: false, air_assist: false, passes: 1, paths: vec![] },
        GcodeLayer {
            name: "Mark".to_owned(),
            enabled: true,
            air_assist: false,
            passes: 1,
            paths: vec![path(&["A"]), path(&["B", "C"])],
        },
    ];
    let out = generate_gcode(&layers);
    let expected = vec![
        "; SnartCut generated G-code",
        "G21       ; units mm",
        "G90       ; absolute positioning",
        "G0 X0 Y0  ; home",
        "M5        ; laser off",
        "; Layer: Cut",
        "M8  ; air assist on",
        "; Pass 1/2",
        "G0 X0.000 Y0.000",
        "M3 S900",
        "G1 X1.000 Y0.000 F600",
        "M5",
        "; Pass 2/2",
        "G0 X0.000 Y0.000",
        "M3 S900",
        "G1 X1.000 Y0.000 F600",
        "M5",
        "M9  ; air assist off",
        "; Layer: Mark",
        "A",
        "B",
        "C",
        "M5        ; laser off",
        "G0 X0 Y0  ; return home",
    ];
    assert_eq!(out, expected);
}

#[test]
fn gcode_layer_with_no_passes() {
    let layers = vec![GcodeLayer {
        name: "Z".to_owned(),
        enabled: true,
        air_assist: false,
        passes: 0,
        paths: vec![path(&["X"])],
    }];
    let out = generate_gcode(&layers);
    assert_eq!(out.len(), 8);
    assert_eq!(out[5], "; Layer: Z");
}

#[test]
fn languages() {
    assert_eq!(program_language(DeviceType::VinylCutter), ProgramLanguage::Hpgl);
    assert_eq!(program_language(DeviceType::GrblLaser), ProgramLanguage::Gcode);
    assert_eq!(program_language(DeviceType::VevorSmart1), ProgramLanguage::Gcode);
}
