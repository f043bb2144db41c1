use altium::color::{Color, RenderOptions};
use altium::layer_colors::{color_for, draw_priority};
use altium::svg::{guess_image_mime, xml_escape, SvgContext};

#[test]
fn known_layers_return_distinct_colors() {
    let top = color_for(1);
    let bottom = color_for(32);
    assert_ne!(top, bottom);
    assert_eq!(top.r, 0xFF);
    assert_eq!(bottom.b, 0xFF);
}

#[test]
fn unknown_layer_falls_back_to_grey() {
    assert_eq!(color_for(200), Color::from_argb_u32(0xFF808080));
}

#[test]
fn draw_priority_lower_for_bottom() {
    assert!(draw_priority(32) < draw_priority(1));
}

#[test]
fn draw_priority_table_values() {
    assert_eq!(draw_priority(38), 1);
    assert_eq!(draw_priority(15), 6);
    assert_eq!(draw_priority(60), 14);
    assert_eq!(draw_priority(999), 50);
}

#[test]
fn color_unpacks_argb() {
    let c = Color::from_argb_u32(0x80123456);
    assert_eq!((c.a, c.r, c.g, c.b), (0x80, 0x12, 0x34, 0x56));
}

#[test]
fn xml_escape_all_specials() {
    assert_eq!(xml_escape("a<b>&\"'c"), "a&lt;b&gt;&amp;&quot;&apos;c");
}

#[test]
fn image_mime_sniffing() {
    assert_eq!(guess_image_mime(&[0x89, b'P', b'N', b'G', 0x0D, 0x0A, 0x1A, 0x0A, 0]), "image/png");
    assert_eq!(guess_image_mime(&[0xFF, 0xD8, 0xFF, 0xE0]), "image/jpeg");
    assert_eq!(guess_image_mime(b"GIF89a"), "image/gif");
    assert_eq!(guess_image_mime(b"BM.."), "image/bmp");
    assert_eq!(guess_image_mime(b"??"), "application/octet-stream");
}

#[test]
fn svg_frame_and_groups() {
    let opts = RenderOptions { width: 10, height: 20, padding: 0, background: None };
    let mut s = SvgContext::new(opts);
    s.save_state();
    s.open_group("translate(1 2)");
    s.push_markup("<x/>");
    s.restore_state();
    s.open_group("scale(2 2)");
    let out = s.finish();
    assert_eq!(
        out,
        "<svg xmlns=\"http://www.w3.org/2000/svg\" width=\"10\" height=\"20\" viewBox=\"0 0 10 20\"><g transform=\"translate(1 2)\"><x/></g><g transform=\"scale(2 2)\"></g></svg>"
    );
    let bg = SvgContext::new(RenderOptions::default()).finish();
    assert!(bg.contains("<rect width=\"512\" height=\"512\" fill=\"#FFFFFF\"/>"));
    assert_eq!(SvgContext::fill_attr(None), "fill=\"none\"");
    assert_eq!(SvgContext::fill_attr(Some(Color::from_argb_u32(0x80FF0000))), "fill=\"#FF000080\"");
}

#[test]
fn finished_svg_closes_every_group_it_opened() {
    let opts = RenderOptions { width: 5, height: 5, padding: 0, background: None };
    let mut s = SvgContext::new(opts);
    s.open_group("translate(1,1)");
    s.save_state();
    s.open_group("rotate(90)");
    s.open_group("scale(2)");
    s.push_markup("<circle r=\"1\"/>");
    s.restore_state();
    s.open_group("translate(2,2)");
    let out = s.finish();
    assert_eq!(out.matches("<g ").count(), 4);
    assert_eq!(out.matches("<g ").count(), out.matches("</g>").count());
    assert!(out.ends_with("</g></g></svg>"));
}
