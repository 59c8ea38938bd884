use raytracer::color::Color;
use raytracer::fx::SCALE;
use raytracer::mesh::{Mesh, MeshParseError};
use raytracer::numtext::parse_fixed;
use raytracer::ppm::{PPMError, PPMHandler, PPMImage, PPMType};

#[test]
fn fixed_point_decimals_parse_exactly() {
    assert_eq!(parse_fixed(b"2"), Some(2 * SCALE));
    assert_eq!(parse_fixed(b"1.5"), Some(SCALE + SCALE / 2));
    assert_eq!(parse_fixed(b"-0.25"), Some(-(SCALE / 4)));
    assert_eq!(parse_fixed(b"0"), Some(0));
    assert_eq!(parse_fixed(b"abc"), None);
    assert_eq!(parse_fixed(b""), None);
    assert_eq!(parse_fixed(b"1."), None);
}

#[test]
fn mesh_file_with_one_face_yields_one_triangle() {
    let text = b"v 0 0 0\nv 1 0 0\nv 0 1 0\nf 1 2 3\n";
    let mesh = Mesh::from_obj(text).expect("a well-formed mesh file");
    assert_eq!(mesh.len(), 1);
    let (v1, v2, v3) = mesh.triangles()[0].vertices();
    assert_eq!((v1.x, v1.y, v1.z), (0, 0, 0));
    assert_eq!((v2.x, v2.y, v2.z), (SCALE, 0, 0));
    assert_eq!((v3.x, v3.y, v3.z), (0, SCALE, 0));
}

#[test]
fn mesh_comments_and_unknown_lines_are_ignored() {
    let text = b"# a comment\nv 0 0 0\nv 1 0 0\nv 0 0 1\nusemtl stone\nf 1 2 3\n";
    let mesh = Mesh::from_obj(text).expect("comments are skipped");
    assert_eq!(mesh.len(), 1);
}

#[test]
fn mesh_bad_number_is_reported() {
    assert_eq!(
        Mesh::from_obj(b"v 1 two 3\n").unwrap_err(),
        MeshParseError::MalformedNumber
    );
    assert_eq!(
        Mesh::from_obj(b"v 1 2\n").unwrap_err(),
        MeshParseError::MalformedNumber
    );
}

#[test]
fn mesh_face_index_out_of_range_is_reported() {
    assert_eq!(
        Mesh::from_obj(b"v 0 0 0\nf 1 2 3\n").unwrap_err(),
        MeshParseError::IndexOutOfRange
    );
    assert_eq!(
        Mesh::from_obj(b"v 0 0 0\nf 0 1 1\n").unwrap_err(),
        MeshParseError::IndexOutOfRange
    );
}

#[test]
fn image_edits_are_pixelwise() {
    let mut img = PPMImage::new(2, 2, 255);
    img.change_pixel(1, 0, Color::new(10, 20, 30));
    assert_eq!(img.pixel_at(1, 0), Color::new(10, 20, 30));
    assert_eq!(img.pixel_at(0, 0), Color::new(0, 0, 0));
    let filled = img.fill(Color::new(100, 100, 100));
    assert_eq!(filled.pixel_at(0, 1), Color::new(100, 100, 100));
    let dark = filled.darken();
    assert_eq!(dark.pixel_at(0, 1), Color::new(50, 50, 50));
    let bright = dark.lighten();
    assert_eq!(bright.pixel_at(0, 1), Color::new(100, 100, 100));
    let capped = filled.lighten();
    assert_eq!(capped.pixel_at(0, 1), Color::new(200, 200, 200));
}

#[test]
fn gamma_correction_takes_square_roots() {
    let mut img = PPMImage::new(1, 1, 255);
    img.change_pixel(0, 0, Color::new(16, 81, 255));
    img.gamma_correct();
    assert_eq!(img.pixel_at(0, 0), Color::new(4, 9, 15));
}

#[test]
fn binary_encoding_is_exact() {
    let mut img = PPMImage::new(2, 1, 255);
    img.change_pixel(0, 0, Color::new(1, 2, 3));
    img.change_pixel(1, 0, Color::new(250, 251, 252));
    let handler = PPMHandler {};
    let bytes = handler.write(&img, PPMType::P6);
    let mut expected: Vec<u8> = b"P6 2 1 255\n".to_vec();
    expected.extend_from_slice(&[1, 2, 3, 250, 251, 252]);
    assert_eq!(bytes, expected);
}

#[test]
fn binary_encoding_widens_for_large_maxval() {
    let mut img = PPMImage::new(1, 1, 1000);
    img.change_pixel(0, 0, Color::new(300, 2, 999));
    let handler = PPMHandler {};
    let bytes = handler.write(&img, PPMType::P6);
    let mut expected: Vec<u8> = b"P6 1 1 1000\n".to_vec();
    expected.extend_from_slice(&[1, 44, 0, 2, 3, 231]);
    assert_eq!(bytes, expected);
}

#[test]
fn text_encoding_is_exact() {
    let mut img = PPMImage::new(1, 1, 255);
    img.change_pixel(0, 0, Color::new(9, 87, 254));
    let handler = PPMHandler {};
    let bytes = handler.write(&img, PPMType::P3);
    assert_eq!(bytes, b"P3 \n1 1 \n255 \n 9 \n 87 \n 254 \n".to_vec());
}

#[test]
fn text_decoding_reads_back_pixels() {
    let handler = PPMHandler {};
    let img = handler
        .read(b"P3\n2 1 255\n1 2 3  4 5 6\n")
        .expect("well-formed image text");
    assert_eq!(img.dim(), (2, 1));
    assert_eq!(img.maxval(), 255);
    assert_eq!(img.pixel_at(0, 0), Color::new(1, 2, 3));
    assert_eq!(img.pixel_at(1, 0), Color::new(4, 5, 6));
}

#[test]
fn text_round_trip_preserves_the_image() {
    let mut img = PPMImage::new(2, 2, 255);
    img.change_pixel(0, 0, Color::new(1, 2, 3));
    img.change_pixel(1, 1, Color::new(9, 8, 7));
    let handler = PPMHandler {};
    let bytes = handler.write(&img, PPMType::P3);
    let back = handler.read(&bytes).expect("own output parses");
    assert_eq!(back.dim(), (2, 2));
    for x in 0..2 {
        for y in 0..2 {
            assert_eq!(back.pixel_at(x, y), img.pixel_at(x, y));
        }
    }
}

#[test]
fn decoder_reports_each_header_error() {
    let handler = PPMHandler {};
    assert_eq!(handler.read(b"PX 1 1 255\n").unwrap_err(), PPMError::BadMagic);
    assert_eq!(handler.read(b"P3 w 1 255\n").unwrap_err(), PPMError::BadWidth);
    assert_eq!(handler.read(b"P3 1 h 255\n").unwrap_err(), PPMError::BadHeight);
    assert_eq!(
        handler.read(b"P3 1 1 99999\n").unwrap_err(),
        PPMError::BadMaxval
    );
    assert_eq!(
        handler.read(b"P3 1 1 255 red 0 0\n").unwrap_err(),
        PPMError::BadChannel
    );
}

#[test]
fn decoder_rejects_out_of_range_values() {
    let handler = PPMHandler {};
    assert_eq!(
        handler.read(b"P3 1 1 255 1 2 3 4 5 6\n").unwrap_err(),
        PPMError::PixelOutOfRange
    );
    assert_eq!(
        handler.read(b"P3 1 1 100 1 2 300\n").unwrap_err(),
        PPMError::ValueTooHigh
    );
}

#[test]
fn decoder_skips_comment_lines() {
    let handler = PPMHandler {};
    let img = handler
        .read(b"# header comment\nP3\n# sizes\n1 1 255\n7 8 9\n")
        .expect("comments are skipped");
    assert_eq!(img.pixel_at(0, 0), Color::new(7, 8, 9));
}
