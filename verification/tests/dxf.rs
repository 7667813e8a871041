use snart_laser::formats::dxf::{load_reader, DxfEntity, DxfReader};

fn reader(text: &str) -> DxfReader {
    DxfReader::new(text.lines().map(|l| l.to_owned()).collect(), false)
}

fn s(v: &str) -> Option<String> {
    Some(v.to_owned())
}

#[test]
fn reader_yields_trimmed_pairs() {
    let mut r = reader("  0\nSECTION\n  2\n ENTITIES \n");
    assert_eq!(r.next_pair(), Some((0, "SECTION".to_owned())));
    assert_eq!(r.next_pair(), Some((2, "ENTITIES".to_owned())));
    assert_eq!(r.next_pair(), None);
}

#[test]
fn reader_stops_at_bad_code() {
    let mut r = reader("x\nSECTION\n0\nEOF\n");
    assert_eq!(r.next_pair(), None);
}

#[test]
fn reader_odd_line_count_gives_empty_value() {
    let mut r = reader("0\nEOF\n999");
    assert_eq!(r.next_pair(), Some((0, "EOF".to_owned())));
    assert_eq!(r.next_pair(), Some((999, String::new())));
    assert_eq!(r.next_pair(), None);
}

#[test]
fn reader_failed_read_ends_pairs() {
    let mut r = DxfReader::new(vec!["0".to_owned()], true);
    assert_eq!(r.next_pair(), None);
}

const DRAWING: &str = "0\nSECTION\n2\nENTITIES\n\
0\nLINE\n8\n0\n10\n1.5\n20\n2\n11\n3\n21\n4\n\
0\nCIRCLE\n10\n5\n20\n6\n40\n7\n\
0\nARC\n10\n1\n20\n2\n40\n3\n50\n45\n\
0\nENDSEC\n0\nEOF\n";

#[test]
fn entities_are_collected() {
    let es = load_reader(reader(DRAWING));
    assert_eq!(es.len(), 3);
    match &es[0] {
        DxfEntity::Line { x1, y1, x2, y2 } => {
            assert_eq!((x1, y1, x2, y2), (&s("1.5"), &s("2"), &s("3"), &s("4")));
        }
        other => panic!("unexpected {other:?}"),
    }
    match &es[1] {
        DxfEntity::Circle { cx, cy, r } => {
            assert_eq!((cx, cy, r), (&s("5"), &s("6"), &s("7")));
        }
        other => panic!("unexpected {other:?}"),
    }
    match &es[2] {
        DxfEntity::Arc { cx, cy, r, start_deg, end_deg } => {
            assert_eq!((cx, cy, r, start_deg), (&s("1"), &s("2"), &s("3"), &s("45")));
            assert_eq!(end_deg, &None);
        }
        other => panic!("unexpected {other:?}"),
    }
}

#[test]
fn entities_outside_entities_section_are_ignored() {
    let es = load_reader(reader("0\nSECTION\n2\nBLOCKS\n0\nLINE\n10\n1\n0\nENDSEC\n0\nEOF\n"));
    assert!(es.is_empty());
}

#[test]
fn pending_entity_at_end_of_input_is_dropped() {
    let es = load_reader(reader("0\nSECTION\n2\nENTITIES\n0\nLINE\n10\n1\n"));
    assert!(es.is_empty());
}

#[test]
fn lwpolyline_vertices_are_its_coordinate_pairs() {
    let es = load_reader(reader(
        "  0\nSECTION\n  2\nENTITIES\n  0\nLWPOLYLINE\n 90\n3\n 70\n1\n 10\n0\n 20\n0\n 10\n10\n 20\n0\n 10\n10\n 20\n10\n  0\nENDSEC\n  0\nEOF\n",
    ));
    assert_eq!(es.len(), 1);
    match &es[0] {
        DxfEntity::LwPolyline { vertices, closed } => {
            assert!(*closed);
            assert_eq!(
                vertices,
                &vec![(s("0"), "0".to_owned()), (s("10"), "0".to_owned()), (s("10"), "10".to_owned())]
            );
        }
        other => panic!("unexpected {other:?}"),
    }
}

#[test]
fn lwpolyline_without_vertices_makes_nothing() {
    let es = load_reader(reader("0\nSECTION\n2\nENTITIES\n0\nLWPOLYLINE\n70\n0\n0\nENDSEC\n"));
    assert!(es.is_empty());
}

#[test]
fn single_line_file() {
    let es = load_reader(reader(
        "  0\nSECTION\n  2\nENTITIES\n  0\nLINE\n  8\n0\n 10\n0.0\n 20\n0.0\n 11\n10.0\n 21\n20.0\n  0\nENDSEC\n  0\nEOF\n",
    ));
    assert_eq!(es.len(), 1);
    match &es[0] {
        DxfEntity::Line { x1, y1, x2, y2 } => {
            assert_eq!((x1, y1, x2, y2), (&s("0.0"), &s("0.0"), &s("10.0"), &s("20.0")));
        }
        other => panic!("unexpected {other:?}"),
    }
}

#[test]
fn exported_layout_reads_back() {
    // header section, then an entities section with two lines, as the exporter writes it
    let text = "  0\nSECTION\n  2\nHEADER\n  0\nENDSEC\n  0\nSECTION\n  2\nENTITIES\n\
  0\nLINE\n  8\n0\n 10\n1.000000\n 20\n2.000000\n 30\n0.0\n 11\n3.000000\n 21\n4.000000\n 31\n0.0\n\
  0\nLINE\n  8\n0\n 10\n3.000000\n 20\n4.000000\n 30\n0.0\n 11\n5.000000\n 21\n6.000000\n 31\n0.0\n\
  0\nENDSEC\n  0\nEOF\n";
    let es = load_reader(reader(text));
    assert_eq!(es.len(), 2);
    match &es[1] {
        DxfEntity::Line { x1, y1, x2, y2 } => {
            assert_eq!((x1, y1, x2, y2), (&s("3.000000"), &s("4.000000"), &s("5.000000"), &s("6.000000")));
        }
        other => panic!("unexpected {other:?}"),
    }
}

#[test]
fn entities_after_another_section_are_ignored() {
    let es = load_reader(reader(
        "0\nSECTION\n2\nENTITIES\n0\nENDSEC\n0\nSECTION\n2\nBLOCKS\n0\nLINE\n0\nENDSEC\n",
    ));
    assert!(es.is_empty());
}

#[test]
fn unknown_entity_type_makes_nothing() {
    let es = load_reader(reader("0\nSECTION\n2\nENTITIES\n0\nTEXT\n10\n1\n0\nLINE\n0\nEOF\n"));
    assert_eq!(es.len(), 1);
    match &es[0] {
        DxfEntity::Line { x1, .. } => assert_eq!(x1, &None),
        other => panic!("unexpected {other:?}"),
    }
}

#[test]
fn section_name_under_code_0_does_not_open_entities() {
    let es = load_reader(reader("0\nSECTION\n0\nENTITIES\n0\nLINE\n10\n1\n0\nENDSEC\n"));
    assert!(es.is_empty());
}
