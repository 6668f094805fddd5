use foton::{get_image_tags, tags_from_fields, ExifField, ExtractionError, Media, MediaType, TagData, TagMap, TagReader};

/// A little-endian TIFF holding one IFD with the Make field "abc".
fn tiff_with_make() -> Vec<u8> {
    vec![
        0x49, 0x49, 0x2a, 0x00, 0x08, 0x00, 0x00, 0x00, // header
        0x01, 0x00, // one entry
        0x0f, 0x01, 0x02, 0x00, 0x04, 0x00, 0x00, 0x00, b'a', b'b', b'c', 0x00, // Make, ASCII
        0x00, 0x00, 0x00, 0x00, // no next IFD
    ]
}

#[test]
fn tag_map_insert_and_get() {
    let mut m = TagMap::new();
    assert!(m.get("Make").is_none());
    m.insert("Make".to_string(), "Canon".to_string());
    m.insert("Model".to_string(), "EOS".to_string());
    m.insert("Make".to_string(), "Nikon".to_string());
    assert_eq!(m.get("Make").map(String::as_str), Some("Nikon"));
    assert_eq!(m.get("Model").map(String::as_str), Some("EOS"));
    assert!(m.get("make").is_none());
    assert_eq!(m.entries().len(), 2);
}

#[test]
fn tag_map_from_pairs_last_wins() {
    let pairs = vec![
        ("a".to_string(), "1".to_string()),
        ("b".to_string(), "2".to_string()),
        ("a".to_string(), "3".to_string()),
    ];
    let m = TagMap::from_pairs(&pairs);
    assert_eq!(m.get("a").map(String::as_str), Some("3"));
    assert_eq!(m.get("b").map(String::as_str), Some("2"));
    assert_eq!(m.entries().len(), 2);
}

#[test]
fn image_tags_from_exif() {
    let tags = get_image_tags(&tiff_with_make()).unwrap();
    assert_eq!(tags.entries().len(), 1);
    assert_eq!(
        tags.get("Manufacturer of image input equipment").map(String::as_str),
        Some("Ascii([\"abc\"])")
    );
}

#[test]
fn malformed_image_data() {
    assert_eq!(get_image_tags(b"not an image").unwrap_err(), ExtractionError::Malformed);
    assert_eq!(get_image_tags(&[]).unwrap_err(), ExtractionError::Malformed);
    let mut truncated = tiff_with_make();
    truncated.truncate(20);
    assert_eq!(get_image_tags(&truncated).unwrap_err(), ExtractionError::Malformed);
}

#[test]
fn readers_per_type() {
    assert_eq!(MediaType::Photo.tag_reader(), TagReader::Image);
    assert_eq!(MediaType::Animation.tag_reader(), TagReader::Image);
    assert_eq!(MediaType::Video.tag_reader(), TagReader::Container);
}

#[test]
fn get_tags_from_container_metadata() {
    let video = Media::from_path("v/clip.mp4".to_string()).unwrap();
    let data = TagData::ContainerMetadata(vec![
        ("creation_time".to_string(), "2020-01-02T03:04:05.000000Z".to_string()),
        ("encoder".to_string(), "Lavf".to_string()),
    ]);
    let tags = video.get_tags(data).unwrap();
    assert_eq!(tags.get("encoder").map(String::as_str), Some("Lavf"));
    assert_eq!(tags.entries().len(), 2);
}

#[test]
fn get_tags_from_image_file() {
    let photo = Media::from_path("p/a.jpg".to_string()).unwrap();
    let tags = photo.get_tags(TagData::ImageFile(tiff_with_make())).unwrap();
    assert!(tags.get("Manufacturer of image input equipment").is_some());
    let err = photo.get_tags(TagData::ImageFile(vec![0, 1, 2])).unwrap_err();
    assert_eq!(err, ExtractionError::Malformed);
}

#[test]
fn fields_without_description_are_dropped() {
    let fields = vec![
        ExifField { description: Some("X resolution".to_string()), value: "Rational([72/1])".to_string() },
        ExifField { description: None, value: "Short([1])".to_string() },
        ExifField { description: Some("X resolution".to_string()), value: "Rational([300/1])".to_string() },
        ExifField { description: Some("Image title".to_string()), value: "Ascii([\"t\"])".to_string() },
    ];
    let tags = tags_from_fields(&fields);
    assert_eq!(tags.entries().len(), 2);
    assert_eq!(tags.get("X resolution").map(String::as_str), Some("Rational([300/1])"));
    assert_eq!(tags.get("Image title").map(String::as_str), Some("Ascii([\"t\"])"));
}
