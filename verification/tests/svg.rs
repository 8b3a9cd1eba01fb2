use rapid_analyzer::colors::Rgb;
use rapid_analyzer::export::svg::{
    baseline, escape, hex, push_num, Align, Frame, Ink, SvgCanvas,
};

const BLACK: Ink = Ink { color: Rgb { r: 0, g: 0, b: 0 }, alpha: 255 };
const RED: Ink = Ink { color: Rgb { r: 255, g: 0, b: 0 }, alpha: 255 };

fn canvas() -> SvgCanvas {
    SvgCanvas::new((400_00, 300_00), (105_83, 79_38))
}

fn frame(left: i32, top: i32, right: i32, bottom: i32) -> Frame {
    Frame { left, top, right, bottom }
}

fn num(n: i64) -> String {
    let mut out = String::new();
    push_num(&mut out, n);
    out
}

#[test]
fn the_document_carries_a_physical_size_and_a_viewbox() {
    let svg = canvas().finish();
    assert!(svg.starts_with("<?xml"), "{}", &svg[..40]);
    assert!(svg.contains("width=\"105.83mm\""), "{svg}");
    assert!(svg.contains("viewBox=\"0 0 400 300\""), "{svg}");
    assert!(svg.trim_end().ends_with("</svg>"));
}

#[test]
fn a_clip_group_is_opened_and_always_closed() {
    let mut c = canvas();
    c.clip(Some(frame(1_00, 2_00, 3_00, 4_00)));
    c.polyline(&vec![(0, 0), (1_00, 1_00)], RED, 1_00);
    let svg = c.finish();
    assert_eq!(svg.matches("<g clip-path").count(), 1, "{svg}");
    assert_eq!(svg.matches("</g>").count(), 1, "{svg}");
    assert!(svg.contains("<clipPath id=\"clip0\">"), "{svg}");
}

#[test]
fn markup_in_a_series_name_cannot_break_the_document() {
    let mut c = canvas();
    c.text(10_00, 10_00, Align::Min, "a < b & \"c\"", 10_00, BLACK);
    let svg = c.finish();
    assert!(svg.contains("a &lt; b &amp; &quot;c&quot;"), "{svg}");
    assert!(!svg.contains("a < b"), "{svg}");
    assert_eq!(escape("<&>\""), "&lt;&amp;&gt;&quot;");
}

#[test]
fn a_translucent_colour_becomes_an_opacity() {
    assert_eq!(hex(Rgb { r: 0x2E, g: 0x7E, b: 0xE6 }), "#2e7ee6");
    let mut c = canvas();
    c.fill_rect(frame(0, 0, 1_00, 1_00), BLACK);
    assert!(!c.body.contains("opacity"), "{}", c.body);
    c.fill_rect(frame(0, 0, 1_00, 1_00), Ink { alpha: 128, ..BLACK });
    assert!(c.body.contains("opacity=\"0.5"), "{}", c.body);
}

/// The seam this exists to prevent: two cells side by side, printed so that one's right edge is
/// the other's left edge to the last decimal.
#[test]
fn tiled_cells_share_their_edge_exactly() {
    let mut c = canvas();
    c.fill_cell(frame(10_00, 0, 11_34, 5_00), RED);
    c.fill_cell(frame(11_34, 0, 12_67, 5_00), RED);
    assert!(c.body.contains("x=\"10\"") && c.body.contains("width=\"1.34\""), "{}", c.body);
    assert!(c.body.contains("x=\"11.34\""), "{}", c.body);
}

#[test]
fn numbers_stay_short() {
    assert_eq!(num(3_00), "3");
    assert_eq!(num(3_14), "3.14");
    assert_eq!(num(0), "0");
    assert_eq!(num(-3_10), "-3.1");
    assert_eq!(num(5), "0.05");
}

#[test]
fn every_kind_of_mark_is_drawn() {
    let mut c = canvas();
    c.stroke_rect(frame(0, 0, 2_00, 2_00), RED, 50);
    c.vertical_gradient(frame(0, 0, 1_00, 9_00), &vec![(0, RED), (100, BLACK)]);
    c.text_rotated(5_00, 6_00, 7_00, "bar", 9_00, BLACK);
    c.clip(Some(frame(0, 0, 1_00, 1_00)));
    c.clip(Some(frame(0, 0, 2_00, 2_00)));
    c.clip(None);
    let svg = c.finish();
    assert!(svg.contains("stroke=\"#ff0000\"") && svg.contains("rotate(-90"), "{svg}");
    assert_eq!(svg.matches("<linearGradient").count(), 1);
    assert_eq!(svg.matches("<g clip-path").count(), svg.matches("</g>").count());
}

#[test]
fn text_sits_on_its_baseline() {
    assert_eq!(baseline(100, Align::Min, 80, 100), 180);
    assert_eq!(baseline(100, Align::Max, 80, 100), 80);
    assert_eq!(baseline(100, Align::Center, 80, 100), 130);
    assert_eq!((frame(1, 2, 4, 9).width(), frame(1, 2, 4, 9).height()), (3, 7));
}

/// Escaping goes character by character, and reading the entities back gives the text.
#[test]
fn escaping_can_be_undone() {
    let text = "a < b & \"c\" &amp; 'd'";
    let escaped = escape(text);
    assert_eq!(escaped, "a &lt; b &amp; &quot;c&quot; &amp;amp; &apos;d&apos;");
    assert_eq!(escape("a < b & ") + &escape("\"c\" &amp; 'd'"), escaped);
    let back = escaped
        .replace("&lt;", "<")
        .replace("&gt;", ">")
        .replace("&quot;", "\"")
        .replace("&apos;", "'")
        .replace("&amp;", "&");
    assert_eq!(back, text);
}
