use ptime::date::CalDate;
use ptime::error::PtimeError;
use ptime::metadata::{
    absorb_outcome, exif_error, capture_date_from_fields, extract_date_from_values, parse_exif_datetime,
    read_capture_date, ExifField, PhotoMeta, TagContext,
};

fn ymd(y: i32, m: u32, d: u32) -> CalDate {
    CalDate::from_ymd(y, m, d).unwrap()
}

fn ascii_field(context: TagContext, number: u16, text: &str) -> ExifField {
    ExifField {
        context,
        number,
        ascii: vec![text.as_bytes().to_vec()],
    }
}

#[test]
fn test_parse_exif_datetime_full() {
    let date = parse_exif_datetime("2023:12:25 14:30:45").unwrap();
    assert_eq!(date, ymd(2023, 12, 25));
}

#[test]
fn test_parse_exif_datetime_date_only() {
    let date = parse_exif_datetime("2020:01:15").unwrap();
    assert_eq!(date, ymd(2020, 1, 15));
}

#[test]
fn test_parse_exif_datetime_with_hyphen() {
    let date = parse_exif_datetime("2020-01-15 10:11:12").unwrap();
    assert_eq!(date, ymd(2020, 1, 15));
}

#[test]
fn test_parse_exif_datetime_invalid() {
    assert!(parse_exif_datetime("not a date").is_none());
    assert!(parse_exif_datetime("2023:13:25 10:00:00").is_none());
    assert!(parse_exif_datetime("").is_none());
}

#[test]
fn parse_datetime_edge_cases() {
    assert_eq!(parse_exif_datetime("  2024:02:29 00:00:00"), Some(ymd(2024, 2, 29)));
    assert_eq!(parse_exif_datetime("2023:02:29 00:00:00"), None);
    assert_eq!(parse_exif_datetime("+2021:+3:07"), Some(ymd(2021, 3, 7)));
    assert_eq!(parse_exif_datetime("2021:-3:07"), None);
    assert_eq!(parse_exif_datetime("-44:03:15"), Some(ymd(-44, 3, 15)));
    assert_eq!(parse_exif_datetime("2021:03"), None);
    assert_eq!(parse_exif_datetime("2021:03:07:01"), None);
    assert_eq!(parse_exif_datetime("99999999999:01:01"), None);
    assert_eq!(parse_exif_datetime("300000:01:01"), None);
    assert_eq!(parse_exif_datetime("2021-03-07T10:00"), None);
    assert_eq!(parse_exif_datetime("2021-03-07\u{3000}10:00"), Some(ymd(2021, 3, 7)));
}

#[test]
fn values_trimmed_of_nul_and_space() {
    let values = vec![
        vec![0xff, 0xfe],
        b"\0\0".to_vec(),
        b"garbage".to_vec(),
        b"\0 2019:08:01 12:00:00 \0".to_vec(),
        b"2000:01:01".to_vec(),
    ];
    assert_eq!(extract_date_from_values(&values), Some(ymd(2019, 8, 1)));
    assert_eq!(extract_date_from_values(&vec![vec![0xc3, 0x28]]), None);
    assert_eq!(extract_date_from_values(&vec![]), None);
}

#[test]
fn digitized_tag_alone_gives_date() {
    let fields = vec![
        ascii_field(TagContext::Tiff, 0x10f, "Maker"),
        ascii_field(TagContext::Exif, 0x9004, "2018:04:05 06:07:08"),
    ];
    assert_eq!(capture_date_from_fields(&fields), Some(ymd(2018, 4, 5)));
}

#[test]
fn unreadable_capture_tag_falls_back_to_modification() {
    let fields = vec![
        ascii_field(TagContext::Exif, 0x9004, "2001:01:01 00:00:00"),
        ascii_field(TagContext::Exif, 0x9003, "    :  :     :  :  "),
        ascii_field(TagContext::Tiff, 0x132, "2010:10:10 10:10:10"),
    ];
    assert_eq!(capture_date_from_fields(&fields), Some(ymd(2010, 10, 10)));
}

#[test]
fn capture_tag_wins_and_context_matters() {
    let fields = vec![
        ascii_field(TagContext::Exif, 0x132, "1999:09:09"),
        ascii_field(TagContext::Tiff, 0x132, "2010:10:10 10:10:10"),
        ascii_field(TagContext::Exif, 0x9003, "2005:05:05 05:05:05"),
    ];
    assert_eq!(capture_date_from_fields(&fields), Some(ymd(2005, 5, 5)));
    let none = vec![ExifField {
        context: TagContext::Exif,
        number: 0x9003,
        ascii: vec![],
    }];
    assert_eq!(capture_date_from_fields(&none), None);
}

fn tiff_with_datetime(text: &[u8; 20]) -> Vec<u8> {
    let mut b = vec![0x49, 0x49, 0x2a, 0x00, 0x08, 0x00, 0x00, 0x00];
    b.extend_from_slice(&[0x01, 0x00]);
    b.extend_from_slice(&[0x32, 0x01, 0x02, 0x00, 0x14, 0x00, 0x00, 0x00, 0x1a, 0x00, 0x00, 0x00]);
    b.extend_from_slice(&[0x00, 0x00, 0x00, 0x00]);
    b.extend_from_slice(text);
    b
}

#[test]
fn capture_date_read_from_tiff_bytes() {
    let data = tiff_with_datetime(b"2021:07:04 10:00:00\0");
    assert_eq!(read_capture_date("photo.tif", data).unwrap(), Some(ymd(2021, 7, 4)));
    let data = tiff_with_datetime(b"2021:17:04 10:00:00\0");
    assert_eq!(read_capture_date("photo.tif", data).unwrap(), None);
}

#[test]
fn unparsable_container_is_exif_error() {
    let result = read_capture_date("dir/fake.jpg", b"fake jpeg".to_vec());
    match result {
        Err(PtimeError::Exif(m)) => {
            assert_eq!(m, "Failed to read EXIF from dir/fake.jpg: Unknown image format");
        }
        _ => panic!("expected an EXIF error"),
    }
    assert!(matches!(read_capture_date("empty.jpg", vec![]), Err(PtimeError::Exif(_))));
}

#[test]
fn collection_step_policy() {
    let mut photos: Vec<PhotoMeta> = Vec::new();
    assert!(absorb_outcome(&mut photos, String::from("a.jpg"), Ok(Some(ymd(2020, 1, 2)))).is_ok());
    assert_eq!(photos.len(), 1);
    assert_eq!(photos[0].rel_path, "a.jpg");
    assert!(absorb_outcome(&mut photos, String::from("b.jpg"), Ok(None)).is_ok());
    let skipped = absorb_outcome(&mut photos, String::from("c.jpg"), Err(PtimeError::Exif(String::from("bad"))));
    assert!(skipped.is_ok());
    assert_eq!(photos.len(), 1);
    let fatal = absorb_outcome(&mut photos, String::from("d.jpg"), Err(PtimeError::Io(String::from("denied"))));
    assert!(matches!(fatal, Err(PtimeError::Io(ref m)) if m == "denied"));
    assert_eq!(photos.len(), 1);
}

#[test]
fn error_exit_codes() {
    let s = || String::from("x");
    assert_eq!(PtimeError::Io(s()).exit_code(), 3);
    assert_eq!(PtimeError::CanonicalizationError { path: s(), source: s() }.exit_code(), 3);
    assert_eq!(PtimeError::DirectoryReadError { path: s(), source: s() }.exit_code(), 3);
    assert_eq!(PtimeError::RelativePathError { path: s() }.exit_code(), 1);
    assert_eq!(PtimeError::Exif(s()).exit_code(), 1);
    assert!(PtimeError::Io(s()).aborts_collection());
    assert!(!PtimeError::Exif(s()).aborts_collection());
}

#[test]
fn calendar_dates() {
    assert!(CalDate::from_ymd(2024, 2, 29).is_some());
    assert!(CalDate::from_ymd(1900, 2, 29).is_none());
    assert!(CalDate::from_ymd(2000, 2, 29).is_some());
    assert!(CalDate::from_ymd(2023, 4, 31).is_none());
    assert!(CalDate::from_ymd(2023, 0, 1).is_none());
    assert!(CalDate::from_ymd(262142, 12, 31).is_some());
    assert!(CalDate::from_ymd(262143, 1, 1).is_none());
    assert!(CalDate::from_ymd(-262143, 1, 1).is_some());
    assert!(CalDate::from_ymd(-262144, 12, 31).is_none());
}

#[test]
fn exif_error_carries_path_and_cause() {
    match exif_error("a/b.jpg", String::from("No Exif data found in JPEG")) {
        PtimeError::Exif(m) => {
            assert_eq!(m, "Failed to read EXIF from a/b.jpg: No Exif data found in JPEG")
        }
        _ => panic!("expected an EXIF error"),
    }
}
