use foton::{Date, DateTime, Format, InfoSource, Media, TagMap};

fn media(path: &str) -> Media {
    Media::from_path(path.to_string()).unwrap()
}

fn format(fmt: &str, take_prefix: Option<usize>, only_date: bool) -> Format {
    Format { fmt: fmt.to_string(), take_prefix, only_date }
}

fn chain() -> Vec<InfoSource> {
    vec![
        InfoSource::FileName { format: format("IMG_%Y%m%d_%H%M%S", Some(19), false) },
        InfoSource::Tag { name: "creation_time".to_string(), format: Format::from("%+".to_string()) },
    ]
}

fn ymd_hms(t: &DateTime) -> (i32, u32, u32, u32, u32, u32) {
    let d = t.date();
    (d.year(), d.month(), d.day(), t.hour(), t.minute(), t.second())
}

#[test]
fn no_sources_no_time() {
    let m = media("IMG_20210615_143000_extra.jpg");
    assert!(m.get_datetime(&[], None).is_none());
    let mut tags = TagMap::new();
    tags.insert("creation_time".to_string(), "2020-01-02T03:04:05Z".to_string());
    assert!(m.get_datetime(&[], Some(&tags)).is_none());
}

#[test]
fn file_name_with_prefix_truncation() {
    let m = media("lib/IMG_20210615_143000_extra.jpg");
    let sources = chain();
    let t = m.get_datetime(&sources, Some(&TagMap::new())).unwrap();
    assert_eq!(ymd_hms(&t.timestamp()), (2021, 6, 15, 14, 30, 0));
    assert_eq!(t.source(), &sources[0]);
}

#[test]
fn fallback_to_tag() {
    let m = media("lib/photo.jpg");
    let mut tags = TagMap::new();
    tags.insert("creation_time".to_string(), "2020-01-02T03:04:05Z".to_string());
    let sources = chain();
    let t = m.get_datetime(&sources, Some(&tags)).unwrap();
    assert_eq!(ymd_hms(&t.timestamp()), (2020, 1, 2, 3, 4, 5));
    assert_eq!(t.source(), &sources[1]);
}

#[test]
fn tags_unavailable_leave_tag_sources_unmatched() {
    let m = media("lib/photo.jpg");
    assert!(m.get_datetime(&chain(), None).is_none());
}

#[test]
fn only_date_gives_midnight() {
    let m = media("lib/photo.jpg");
    let mut tags = TagMap::new();
    tags.insert("GPS date".to_string(), "2022-12-25".to_string());
    let sources = vec![InfoSource::Tag { name: "GPS date".to_string(), format: format("%F", None, true) }];
    let t = m.get_datetime(&sources, Some(&tags)).unwrap();
    assert_eq!(ymd_hms(&t.timestamp()), (2022, 12, 25, 0, 0, 0));
    assert_eq!(t.timestamp().nanosecond(), 0);
}

#[test]
fn first_matching_source_wins() {
    let m = media("lib/IMG_20210615_143000_extra.jpg");
    let mut tags = TagMap::new();
    tags.insert("creation_time".to_string(), "2020-01-02T03:04:05Z".to_string());
    let forward = chain();
    let t = m.get_datetime(&forward, Some(&tags)).unwrap();
    assert_eq!(t.source(), &forward[0]);
    assert_eq!(ymd_hms(&t.timestamp()), (2021, 6, 15, 14, 30, 0));
    let backward: Vec<InfoSource> = forward.iter().rev().cloned().collect();
    let t = m.get_datetime(&backward, Some(&tags)).unwrap();
    assert_eq!(t.source(), &backward[0]);
    assert_eq!(ymd_hms(&t.timestamp()), (2020, 1, 2, 3, 4, 5));
}

#[test]
fn get_value_reads_file_name_or_tag() {
    let m = media("some/dir/IMG_1.jpg");
    let by_name = InfoSource::FileName { format: Format::from("%F".to_string()) };
    assert_eq!(m.get_value(&by_name, None), Some("IMG_1.jpg"));
    let by_tag = InfoSource::Tag { name: "Make".to_string(), format: Format::from("%F".to_string()) };
    assert_eq!(m.get_value(&by_tag, None), None);
    let mut tags = TagMap::new();
    tags.insert("Make".to_string(), "Canon".to_string());
    assert_eq!(m.get_value(&by_tag, Some(&tags)), Some("Canon"));
}

#[test]
fn single_source_results() {
    let m = media("x/IMG_20200101_000000.jpg");
    let src = InfoSource::FileName { format: format("IMG_%Y%m%d_%H%M%S.jpg", None, false) };
    let t = m.get_datetime_from_source(&src, None).unwrap();
    assert_eq!(ymd_hms(&t), (2020, 1, 1, 0, 0, 0));
    let without_ext = InfoSource::FileName { format: format("IMG_%Y%m%d_%H%M%S", None, false) };
    assert!(m.get_datetime_from_source(&without_ext, None).is_none());
    let prefix_longer_than_name = InfoSource::FileName { format: format("IMG_%Y%m%d_%H%M%S.jpg", Some(100), false) };
    assert!(m.get_datetime_from_source(&prefix_longer_than_name, None).is_some());
    let date_prefix = InfoSource::FileName { format: format("IMG_%Y%m%d", Some(12), true) };
    assert_eq!(ymd_hms(&m.get_datetime_from_source(&date_prefix, None).unwrap()), (2020, 1, 1, 0, 0, 0));
}

#[test]
fn prefix_counts_characters_not_bytes() {
    let m = media("x/ÉTÉ_2019-07-14_fête.jpg");
    let src = InfoSource::FileName { format: format("ÉTÉ_%Y-%m-%d", Some(14), true) };
    assert_eq!(ymd_hms(&m.get_datetime_from_source(&src, None).unwrap()), (2019, 7, 14, 0, 0, 0));
}

#[test]
fn parse_failure_is_no_time() {
    let m = media("x/photo.jpg");
    let mut tags = TagMap::new();
    tags.insert("Date".to_string(), "2015/9/31".to_string());
    let src = InfoSource::Tag { name: "Date".to_string(), format: format("%Y/%m/%d", None, true) };
    assert!(m.get_datetime_from_source(&src, Some(&tags)).is_none());
}

#[test]
fn date_and_date_time_parsing() {
    let d = Date::parse_from_str("2024-02-29", "%F").unwrap();
    assert_eq!((d.year(), d.month(), d.day()), (2024, 2, 29));
    assert!(Date::parse_from_str("2023-02-29", "%F").is_none());
    let t = d.and_midnight();
    assert_eq!(ymd_hms(&t), (2024, 2, 29, 0, 0, 0));
    let t = DateTime::parse_from_str("2015-09-05 23:56:04", "%Y-%m-%d %H:%M:%S").unwrap();
    assert_eq!(ymd_hms(&t), (2015, 9, 5, 23, 56, 4));
    assert!(DateTime::parse_from_str("94/9/4 24:00:00", "%y/%m/%d %H:%M:%S").is_none());
}

#[test]
fn format_from_string() {
    let f = Format::from("%F %T".to_string());
    assert_eq!(f, Format { fmt: "%F %T".to_string(), take_prefix: None, only_date: false });
}
