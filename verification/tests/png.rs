use rapid_analyzer::export::png::{
    bounds, canvas_size, crc32, into_png, pixel_at, texel_target, with_dpi, PngError, TooLarge,
};
use rapid_analyzer::export::svg::Frame;

const ALL: Frame = Frame { left: 0, top: 0, right: 1_000_000, bottom: 1_000_000 };

#[test]
fn the_canvas_is_the_figure_at_the_requested_scale() {
    assert_eq!(canvas_size((200_00, 100_00), 3, 1), Ok((600, 300)));
}

#[test]
fn an_absurd_resolution_is_refused_rather_than_allocated() {
    let Err(err) = canvas_size((4000_00, 3000_00), 100, 1) else {
        panic!("a canvas of 120 gigapixels was allocated");
    };
    assert!(err.message().contains("too large"), "{}", err.message());
    assert_eq!(err, TooLarge { width: 400_000, height: 300_000 });
}

#[test]
fn a_filled_rect_covers_exactly_what_it_says() {
    let rect = Frame { left: 2_00, top: 2_00, right: 5_00, bottom: 5_00 };
    let clip = Frame { left: 0, top: 0, right: 10_00, bottom: 10_00 };
    // The far edge is exclusive.
    assert_eq!(bounds(rect, clip, 10, 10), Some((2, 2, 5, 5)));
    assert_eq!(bounds(Frame { left: 50_00, right: 60_00, ..rect }, clip, 10, 10), None);
}

#[test]
fn the_png_records_the_resolution_it_was_rendered_at() {
    let png = into_png(20, 20, vec![255; 20 * 20 * 4], 300_00).ok().unwrap();
    assert_eq!(&png[1..4], b"PNG");
    let phys = png.windows(4).position(|w| w == b"pHYs").expect("a pHYs chunk");
    let ppm = u32::from_be_bytes(png[phys + 4..phys + 8].try_into().unwrap());
    assert_eq!(ppm, 11811, "300 dpi in pixels per metre");
    // The image still decodes, with the chunk in it.
    let decoded = image::load_from_memory(&png).unwrap();
    assert_eq!((decoded.width(), decoded.height()), (20, 20));
}

#[test]
fn a_picture_without_its_pixels_is_refused() {
    assert_eq!(into_png(20, 20, vec![255; 7], 300_00).err(), Some(PngError::Mismatch));
}

#[test]
fn only_the_resolution_is_added() {
    let mut file = std::io::Cursor::new(Vec::new());
    image::RgbaImage::new(2, 2).write_to(&mut file, image::ImageFormat::Png).unwrap();
    let plain = file.into_inner();
    let dated = with_dpi(plain.clone(), 96_00);
    assert_eq!(dated[..33], plain[..33]);
    assert_eq!(dated[33 + 21..], plain[33..]);
    // The chunk closes with the checksum of its type and contents.
    let crc = u32::from_be_bytes(dated[33 + 17..33 + 21].try_into().unwrap());
    assert_eq!(crc, crc32(&dated[33 + 4..33 + 17]));
    // What is no PNG is left as it is.
    assert_eq!(with_dpi(vec![1, 2, 3], 96_00), vec![1, 2, 3]);
}

#[test]
fn a_rotated_label_lands_in_its_own_box() {
    assert_eq!(texel_target((0, 0), (2, 3), (1, 1), false), (3, 4));
    let (x, y) = texel_target((0, 0), (2, 3), (1, 1), true);
    assert!(y < 0 && x > 0, "a rotated label reads up the page ({x}, {y})");
    assert_eq!(pixel_at((3, 4), 10, 10, ALL), Some((3, 4)));
    assert_eq!(pixel_at((-1, 4), 10, 10, ALL), None);
    assert_eq!(pixel_at((10, 4), 10, 10, ALL), None);
}

#[test]
fn the_crc_matches_the_reference_implementation() {
    // The check value every CRC-32 implementation agrees on.
    assert_eq!(crc32(b"123456789"), 0xCBF4_3926);
}
