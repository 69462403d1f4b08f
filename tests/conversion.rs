use desmos_image::desmos::{
    check_input, convert_png, decode_png, parse_image, pixel_expression, same_text, ConvertError,
    Raster, MAX_FILE_SIZE,
};

fn png_bytes(img: image::RgbaImage) -> Vec<u8> {
    let mut cursor = std::io::Cursor::new(Vec::new());
    image::DynamicImage::ImageRgba8(img)
        .write_to(&mut cursor, image::ImageOutputFormat::Png)
        .unwrap();
    cursor.into_inner()
}

fn raster(width: u32, height: u32, rgba: Vec<u8>) -> Raster {
    Raster { width, height, rgba }
}

#[test]
fn two_by_one_black_image() {
    let img = raster(2, 1, vec![0, 0, 0, 255, 0, 0, 0, 255]);
    let out = parse_image(&img);
    assert_eq!(out.len(), 2);
    assert_eq!(out[0].id, 0);
    assert_eq!(out[1].id, 1);
    assert_eq!(out[0].color, "rgb(0, 0, 0)");
    assert_eq!(out[1].color, "rgb(0, 0, 0)");
    assert_eq!(out[0].latex, "0\\le x\\le1\\left\\{-1\\le y\\le0\\right\\}");
    assert_eq!(out[1].latex, "1\\le x\\le2\\left\\{-1\\le y\\le0\\right\\}");
    assert_eq!(out[0].kind, "expression");
    assert_eq!(out[0].fill_opacity, "");
    assert_eq!(out[0].line_opacity, "");
    assert_eq!(out[0].line_width, "");
}

#[test]
fn record_count_and_ids_follow_scan_order() {
    let img = raster(3, 2, vec![7; 24]);
    let out = parse_image(&img);
    assert_eq!(out.len(), 6);
    for (i, e) in out.iter().enumerate() {
        assert_eq!(e.id, i);
    }
    assert_eq!(out[4].latex, "1\\le x\\le2\\left\\{-2\\le y\\le-1\\right\\}");
}

#[test]
fn empty_image_gives_no_records() {
    assert!(parse_image(&raster(0, 5, vec![])).is_empty());
    assert!(parse_image(&raster(4, 0, vec![])).is_empty());
}

#[test]
fn color_ignores_alpha() {
    let img = raster(2, 1, vec![12, 34, 255, 0, 255, 128, 9, 200]);
    let out = parse_image(&img);
    assert_eq!(out[0].color, "rgb(12, 34, 255)");
    assert_eq!(out[1].color, "rgb(255, 128, 9)");
}

#[test]
fn lower_rows_are_plotted_lower() {
    let e = pixel_expression(5, 10, 99, 1, 2, 3);
    assert_eq!(e.id, 5);
    assert_eq!(e.color, "rgb(1, 2, 3)");
    assert_eq!(e.latex, "10\\le x\\le11\\left\\{-100\\le y\\le-99\\right\\}");
}

#[test]
fn input_checks() {
    assert_eq!(check_input("png", 10), Ok(()));
    assert_eq!(check_input("png", MAX_FILE_SIZE), Ok(()));
    assert_eq!(check_input("png", 5_000_001), Err(ConvertError::TooLarge));
    assert_eq!(check_input("jpg", 10), Err(ConvertError::NotPng));
    assert_eq!(check_input("PNG", 10), Err(ConvertError::NotPng));
    assert_eq!(check_input("", 10), Err(ConvertError::NotPng));
    assert_eq!(check_input("jpg", 6_000_000), Err(ConvertError::NotPng));
}

#[test]
fn same_text_compares_characters() {
    assert!(same_text("png", "png"));
    assert!(!same_text("pn", "png"));
    assert!(!same_text("pnG", "png"));
}

#[test]
fn decodes_png_bytes() {
    let mut img = image::RgbaImage::new(2, 1);
    img.put_pixel(1, 0, image::Rgba([10, 20, 30, 40]));
    let r = decode_png(&png_bytes(img)).unwrap();
    assert_eq!(r.width, 2);
    assert_eq!(r.height, 1);
    assert_eq!(r.rgba, vec![0, 0, 0, 0, 10, 20, 30, 40]);
}

#[test]
fn undecodable_bytes_are_refused() {
    assert_eq!(decode_png(&[1, 2, 3]).err(), Some(ConvertError::Decode));
    assert_eq!(convert_png("png", 3, &[1, 2, 3]).err(), Some(ConvertError::Decode));
}

#[test]
fn refused_inputs_are_never_decoded() {
    let bytes = png_bytes(image::RgbaImage::new(1, 1));
    assert_eq!(convert_png("gif", 10, &bytes).err(), Some(ConvertError::NotPng));
    assert_eq!(convert_png("png", 5_000_001, &bytes).err(), Some(ConvertError::TooLarge));
    assert_eq!(convert_png("png", 5_000_001, &[9, 9]).err(), Some(ConvertError::TooLarge));
}

#[test]
fn converts_black_png_file() {
    let mut img = image::RgbaImage::new(2, 1);
    img.put_pixel(0, 0, image::Rgba([0, 0, 0, 255]));
    img.put_pixel(1, 0, image::Rgba([0, 0, 0, 255]));
    let bytes = png_bytes(img);
    let out = convert_png("png", bytes.len() as u64, &bytes).unwrap();
    assert_eq!(out.len(), 2);
    assert_eq!(out[0].color, "rgb(0, 0, 0)");
    assert_eq!(out[1].color, "rgb(0, 0, 0)");
    assert_eq!(out[0].id, 0);
    assert_eq!(out[1].id, 1);
    assert_eq!(out[0].latex, "0\\le x\\le1\\left\\{-1\\le y\\le0\\right\\}");
    assert_eq!(out[1].latex, "1\\le x\\le2\\left\\{-1\\le y\\le0\\right\\}");
}
