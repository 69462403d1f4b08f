use desmos_image::desmos::{parse_image, ConvertError, Raster};
use desmos_image::document::{
    decode_calc_state, read_list_at,
    decode_document, default_viewport, encode_calc_state, encode_document, CalcState, SaveDocument,
};
use desmos_image::hash::HashError;
use desmos_image::json::{expect_at, push_quoted, read_string_at};
use desmos_image::upload::{build_document, data_url, new_calc_state, prepare_upload, UploadError};

fn sample_document() -> SaveDocument {
    SaveDocument {
        thumb_data: "data:image/png;base64,AQID".to_string(),
        calc_state: "{\"version\":9,\"a\":\"b\\\\c\"}\n\t\u{1}".to_string(),
        is_update: false,
        lang: "en".to_string(),
        my_graphs: true,
        graph_hash: "abc123defg".to_string(),
    }
}

fn png_bytes(img: image::RgbaImage) -> Vec<u8> {
    let mut cursor = std::io::Cursor::new(Vec::new());
    image::DynamicImage::ImageRgba8(img)
        .write_to(&mut cursor, image::ImageOutputFormat::Png)
        .unwrap();
    cursor.into_inner()
}

#[test]
fn escapes_string_literals() {
    let mut s = String::new();
    push_quoted(&mut s, "a\"b\\c\nd\u{1f}é");
    assert_eq!(s, "\"a\\\"b\\\\c\\u000ad\\u001fé\"");
}

#[test]
fn reads_string_literals() {
    let chars: Vec<char> = "x\"a\\\"b\\u000a\"y".chars().collect();
    let (t, end) = read_string_at(&chars, 1).unwrap();
    assert_eq!(t, "a\"b\n");
    assert_eq!(end, 13);
    assert!(read_string_at(&chars, 0).is_none());
    let open: Vec<char> = "\"abc".chars().collect();
    assert!(read_string_at(&open, 0).is_none());
    assert_eq!(expect_at(&chars, 0, "x\""), Some(2));
    assert_eq!(expect_at(&chars, 0, "y"), None);
}

#[test]
fn document_text() {
    let d = SaveDocument {
        thumb_data: "t".to_string(),
        calc_state: "{\"a\":1}".to_string(),
        is_update: false,
        lang: "en".to_string(),
        my_graphs: false,
        graph_hash: "abc123defg".to_string(),
    };
    assert_eq!(
        encode_document(&d),
        "{\"thumb_data\":\"t\",\"calc_state\":\"{\\\"a\\\":1}\",\"is_update\":\"false\",\"lang\":\"en\",\"my_graphs\":\"false\",\"graph_hash\":\"abc123defg\"}"
    );
}

#[test]
fn document_round_trip() {
    let d = sample_document();
    let back = decode_document(&encode_document(&d)).unwrap();
    assert_eq!(back.thumb_data, d.thumb_data);
    assert_eq!(back.calc_state, d.calc_state);
    assert_eq!(back.is_update, d.is_update);
    assert_eq!(back.lang, d.lang);
    assert_eq!(back.my_graphs, d.my_graphs);
    assert_eq!(back.graph_hash, d.graph_hash);
}

#[test]
fn malformed_documents_are_refused() {
    let text = encode_document(&sample_document());
    assert!(decode_document(&text[..text.len() - 1]).is_none());
    assert!(decode_document(&format!("{} ", text)).is_none());
    assert!(decode_document(&text.replace("\"true\"", "\"yes\"")).is_none());
    assert!(decode_document("").is_none());
}

#[test]
fn calc_state_text() {
    let img = Raster { width: 1, height: 1, rgba: vec![1, 2, 3, 4] };
    let state = new_calc_state("00ff00ff00ff00ff".to_string(), parse_image(&img));
    assert_eq!(
        encode_calc_state(&state),
        "{\"version\":9,\"randomSeed\":\"00ff00ff00ff00ff\",\"graph\":{\"viewport\":{\"xmin\":-170,\"xmax\":170,\"ymin\":-170,\"ymax\":170}},\"expressions\":{\"list\":[{\"type\":\"expression\",\"id\":0,\"color\":\"rgb(1, 2, 3)\",\"latex\":\"0\\\\le x\\\\le1\\\\left\\\\{-1\\\\le y\\\\le0\\\\right\\\\}\",\"fillOpacity\":\"\",\"lineOpacity\":\"\",\"lineWidth\":\"\"}]}}"
    );
}

#[test]
fn calc_state_lists_are_comma_separated() {
    let img = Raster { width: 2, height: 1, rgba: vec![0; 8] };
    let state = CalcState {
        version: 9,
        random_seed: "s".to_string(),
        viewport: default_viewport(),
        expressions: parse_image(&img),
    };
    let text = encode_calc_state(&state);
    assert!(text.contains("\"lineWidth\":\"\"},{\"type\":\"expression\",\"id\":1,"));
    let empty = CalcState {
        version: 9,
        random_seed: "s".to_string(),
        viewport: default_viewport(),
        expressions: vec![],
    };
    assert!(encode_calc_state(&empty).ends_with("\"list\":[]}}"));
}

#[test]
fn thumbnail_is_base64_data_url() {
    assert_eq!(data_url(&[1, 2, 3]), "data:image/png;base64,AQID");
    assert_eq!(data_url(&[0xff]), "data:image/png;base64,/w==");
    assert_eq!(data_url(&[]), "data:image/png;base64,");
}

#[test]
fn built_document_fields() {
    let state = new_calc_state("0123456789abcdef".to_string(), vec![]);
    let d = build_document(&state, "thumb".to_string(), "abc123defg".to_string());
    assert_eq!(d.calc_state, encode_calc_state(&state));
    assert_eq!(d.lang, "en");
    assert!(!d.is_update);
    assert!(!d.my_graphs);
    assert_eq!(d.graph_hash, "abc123defg");
    assert_eq!(d.thumb_data, "thumb");
}

#[test]
fn supplied_hash_appears_in_document() {
    let bytes = png_bytes(image::RgbaImage::new(2, 1));
    let d = prepare_upload("png", bytes.len() as u64, &bytes, Some("abc123defg")).unwrap();
    assert_eq!(d.graph_hash, "abc123defg");
    assert_eq!(d.thumb_data, data_url(&bytes));
    assert!(d.calc_state.contains("\"id\":1,"));
    assert!(encode_document(&d).contains("\"graph_hash\":\"abc123defg\""));
}

#[test]
fn short_hash_is_refused_first() {
    let bytes = png_bytes(image::RgbaImage::new(2, 1));
    assert_eq!(
        prepare_upload("png", bytes.len() as u64, &bytes, Some("short")).err(),
        Some(UploadError::Hash(HashError::Length))
    );
    assert_eq!(
        prepare_upload("txt", 99_000_000, &[1], Some("short")).err(),
        Some(UploadError::Hash(HashError::Length))
    );
    assert_eq!(
        prepare_upload("png", 1, &[1], Some("abc123def-")).err(),
        Some(UploadError::Hash(HashError::Charset))
    );
}

#[test]
fn wrong_extension_or_size_is_refused() {
    let bytes = png_bytes(image::RgbaImage::new(2, 1));
    assert_eq!(
        prepare_upload("jpg", bytes.len() as u64, &bytes, None).err(),
        Some(UploadError::Convert(ConvertError::NotPng))
    );
    assert_eq!(
        prepare_upload("png", 5_000_001, &bytes, None).err(),
        Some(UploadError::Convert(ConvertError::TooLarge))
    );
    assert_eq!(
        prepare_upload("png", 3, &[1, 2, 3], None).err(),
        Some(UploadError::Convert(ConvertError::Decode))
    );
}

#[test]
fn generated_hash_document() {
    let bytes = png_bytes(image::RgbaImage::new(1, 1));
    let d = prepare_upload("png", bytes.len() as u64, &bytes, None).unwrap();
    assert_eq!(d.graph_hash.len(), 10);
    assert!(d.graph_hash.chars().all(|c| c.is_ascii_hexdigit()));
}

#[test]
fn calc_state_round_trip() {
    let img = Raster { width: 2, height: 2, rgba: vec![1, 2, 3, 4, 5, 6, 7, 8, 9, 10, 11, 12, 13, 14, 15, 16] };
    let mut state = new_calc_state("0123456789abcdef".to_string(), parse_image(&img));
    state.viewport.xmin = i64::MIN;
    state.viewport.ymax = i64::MAX;
    state.version = u32::MAX;
    let back = decode_calc_state(&encode_calc_state(&state)).unwrap();
    assert_eq!(back.version, state.version);
    assert_eq!(back.random_seed, state.random_seed);
    assert_eq!(back.viewport, state.viewport);
    assert_eq!(back.expressions.len(), 4);
    for (x, y) in back.expressions.iter().zip(state.expressions.iter()) {
        assert_eq!(x.kind, y.kind);
        assert_eq!(x.id, y.id);
        assert_eq!(x.color, y.color);
        assert_eq!(x.latex, y.latex);
        assert_eq!(x.fill_opacity, y.fill_opacity);
        assert_eq!(x.line_opacity, y.line_opacity);
        assert_eq!(x.line_width, y.line_width);
    }
}

#[test]
fn empty_calc_state_round_trip() {
    let state = new_calc_state("s".to_string(), vec![]);
    let back = decode_calc_state(&encode_calc_state(&state)).unwrap();
    assert!(back.expressions.is_empty());
    assert_eq!(back.viewport, default_viewport());
}

#[test]
fn malformed_calc_states_are_refused() {
    let state = new_calc_state("s".to_string(), vec![]);
    let text = encode_calc_state(&state);
    assert!(decode_calc_state(&text.replace("\"version\":9", "\"version\":99999999999")).is_none());
    assert!(decode_calc_state(&text.replace("-170", "-")).is_none());
    assert!(decode_calc_state(&format!("{}}}", text)).is_none());
    assert!(decode_calc_state(&text.replace("[]", "[,]")).is_none());
}

#[test]
fn reads_expression_arrays() {
    let chars: Vec<char> = "[]".chars().collect();
    let (v, end) = read_list_at(&chars, 0).unwrap();
    assert!(v.is_empty());
    assert_eq!(end, 2);
    let bad: Vec<char> = "[{}]".chars().collect();
    assert!(read_list_at(&bad, 0).is_none());
}
