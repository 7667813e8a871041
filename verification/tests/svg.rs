use snart_laser::formats::svg::stroke_color;

#[test]
fn stroke_colors() {
    assert_eq!(stroke_color(Some((0x12, 0xab, 0xff))), "#12abff");
    assert_eq!(stroke_color(Some((0, 0, 0))), "#000000");
    assert_eq!(stroke_color(None), "#ff0000");
}
