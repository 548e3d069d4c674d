//! Capture dates from EXIF metadata: date text parsing, tag priority, and the
//! per-file skip-or-abort policy of collection.

use vstd::prelude::*;
use vstd::utf8::{decode_utf8, valid_utf8};
use crate::date::{CalDate, is_valid_ymd};
use vstd::string::StringExecFns;
use crate::error::PtimeError;
use crate::text::{first_word, first_word_of, split_on, split_ranges, trim, trim_class};

verus! {

/// The value of a non-empty run of ASCII decimal digits.
pub open spec fn digits_value(s: Seq<char>) -> int
    decreases s.len(),
{
    if s.len() == 0 {
        0
    } else {
        digits_value(s.drop_last()) * 10 + (s.last() as int - '0' as int)
    }
}

pub open spec fn all_digits(s: Seq<char>) -> bool {
    forall|i: int| 0 <= i < s.len() ==> '0' <= #[trigger] s[i] && s[i] <= '9'
}

/// Decimal text: an optional sign (`-` only when `signed`), then one or more
/// ASCII digits; the signed value.
pub open spec fn decimal_value(s: Seq<char>, signed: bool) -> Option<int> {
    let neg = signed && s.len() > 0 && s[0] == '-';
    let body = if s.len() > 0 && (s[0] == '+' || neg) { s.drop_first() } else { s };
    if body.len() > 0 && all_digits(body) {
        Some(if neg { -digits_value(body) } else { digits_value(body) })
    } else {
        None
    }
}

/// What `str::parse::<i32>` gives for the text.
pub open spec fn i32_of_text(s: Seq<char>) -> Option<i32> {
    match decimal_value(s, true) {
        Some(v) => if i32::MIN <= v <= i32::MAX { Some(v as i32) } else { None },
        None => None,
    }
}

/// What `str::parse::<u32>` gives for the text.
pub open spec fn u32_of_text(s: Seq<char>) -> Option<u32> {
    match decimal_value(s, false) {
        Some(v) => if 0 <= v <= u32::MAX { Some(v as u32) } else { None },
        None => None,
    }
}

/// The date written as year, month and day joined by `sep`, if the text is
/// exactly three such numbers naming a calendar day.
pub open spec fn date_with_sep(t: Seq<char>, sep: char) -> Option<CalDate> {
    let parts = split_on(t, sep);
    if parts.len() != 3 {
        None
    } else {
        match (i32_of_text(parts[0]), u32_of_text(parts[1]), u32_of_text(parts[2])) {
            (Some(y), Some(m), Some(d)) => if is_valid_ymd(y as int, m as int, d as int) {
                Some(CalDate { year: y, month: m, day: d })
            } else {
                None
            },
            _ => None,
        }
    }
}

/// The date of a date-time text: its first word, read with `:` as the date
/// separator, else with `-`.
pub open spec fn text_date(s: Seq<char>) -> Option<CalDate> {
    let w = first_word(s);
    match date_with_sep(w, ':') {
        Some(d) => Some(d),
        None => date_with_sep(w, '-'),
    }
}

/// The date held by one raw ASCII value of a field: UTF-8 text, trimmed of NUL
/// and then of white space, that is not empty.
pub open spec fn value_date(b: Seq<u8>) -> Option<CalDate> {
    if valid_utf8(b) {
        let t = trim(trim(decode_utf8(b), true), false);
        if t.len() == 0 { None } else { text_date(t) }
    } else {
        None
    }
}

/// The date of the first of the values that holds one.
pub open spec fn values_date(vals: Seq<Seq<u8>>) -> Option<CalDate>
    decreases vals.len(),
{
    if vals.len() == 0 {
        None
    } else {
        match value_date(vals[0]) {
            Some(d) => Some(d),
            None => values_date(vals.drop_first()),
        }
    }
}

/// EXIF tag number of DateTimeOriginal, in the Exif IFD.
pub const TAG_DATE_TIME_ORIGINAL: u16 = 0x9003;

/// TIFF tag number of DateTime, the modification time, in IFD0 (and IFD1).
pub const TAG_DATE_TIME: u16 = 0x132;

/// EXIF tag number of DateTimeDigitized, in the Exif IFD.
pub const TAG_DATE_TIME_DIGITIZED: u16 = 0x9004;

/// How a tag number is read: the IFD that a field comes from.
#[derive(Clone, Copy, Debug, PartialEq, Eq, Structural)]
pub enum TagContext {
    Tiff,
    Exif,
    Gps,
    Interop,
    Other,
}

/// A metadata field: its tag (context and number) and its ASCII values,
/// empty when the field is not of ASCII type.
#[derive(Debug)]
pub struct ExifField {
    pub context: TagContext,
    pub number: u16,
    pub ascii: Vec<Vec<u8>>,
}

pub type FieldView = (TagContext, u16, Seq<Seq<u8>>);

impl ExifField {
    pub open spec fn view(&self) -> FieldView {
        (self.context, self.number, self.ascii.deep_view())
    }
}

pub open spec fn fields_view(fs: Seq<ExifField>) -> Seq<FieldView> {
    fs.map_values(|f: ExifField| f.view())
}

/// The date of the first field with the tag whose values hold one.
pub open spec fn tag_date(fs: Seq<FieldView>, ctx: TagContext, num: u16) -> Option<CalDate>
    decreases fs.len(),
{
    if fs.len() == 0 {
        None
    } else {
        let f = fs[0];
        let here = if f.0 == ctx && f.1 == num { values_date(f.2) } else { None };
        match here {
            Some(d) => Some(d),
            None => tag_date(fs.drop_first(), ctx, num),
        }
    }
}

/// The capture date: from the DateTimeOriginal tag, else the DateTime
/// (modification) tag, else the DateTimeDigitized tag; a tag that is absent or holds no readable
/// date passes on to the next.
pub open spec fn capture_date(fs: Seq<FieldView>) -> Option<CalDate> {
    match tag_date(fs, TagContext::Exif, TAG_DATE_TIME_ORIGINAL) {
        Some(d) => Some(d),
        None => match tag_date(fs, TagContext::Tiff, TAG_DATE_TIME) {
            Some(d) => Some(d),
            None => tag_date(fs, TagContext::Exif, TAG_DATE_TIME_DIGITIZED),
        },
    }
}

/// A file that holds a capture date: its path relative to the scan root.
#[derive(Clone, Debug)]
pub struct PhotoMeta {
    pub rel_path: String,
    pub date: CalDate,
}

/// What the EXIF reader makes of a file's bytes: the fields it finds, in its
/// order, or the text of its error where it cannot parse them.
pub uninterp spec fn exif_read_of(data: Seq<u8>) -> Result<Seq<FieldView>, Seq<char>>;

/// Relies on i32's `FromStr`: an optional `+` or `-` and then one or more
/// ASCII digits, whose value must fit.
#[verifier::external_body]
fn parse_i32(s: &str) -> (r: Option<i32>)
    ensures
        r == i32_of_text(s@),
{
    s.parse::<i32>().ok()
}

/// Relies on u32's `FromStr`: an optional `+` and then one or more ASCII
/// digits, whose value must fit.
#[verifier::external_body]
fn parse_u32(s: &str) -> (r: Option<u32>)
    ensures
        r == u32_of_text(s@),
{
    s.parse::<u32>().ok()
}

/// Relies on `std::str::from_utf8`: text exactly for well-formed UTF-8.
#[verifier::external_body]
fn utf8_text<'a>(b: &'a [u8]) -> (r: Option<&'a str>)
    ensures
        r is Some == valid_utf8(b@),
        r matches Some(t) ==> t@ == decode_utf8(b@),
{
    std::str::from_utf8(b).ok()
}

/// Relies on `exif::Reader::read_from_container`, on the bytes of a whole
/// file, and on `exif::Exif::fields`; each field keeps its tag and, when its
/// value is ASCII, the raw strings of that value. A failure gives the
/// `Display` text of the reader's `exif::Error`.
#[verifier::external_body]
fn read_exif_fields(data: Vec<u8>) -> (r: Result<Vec<ExifField>, String>)
    ensures
        match exif_read_of(data@) {
            Ok(fs) => r is Ok && fields_view(r->Ok_0@) == fs,
            Err(text) => r is Err && r->Err_0@ == text,
        },
{
    let exif = match exif::Reader::new().read_from_container(&mut std::io::Cursor::new(data)) {
        Ok(exif) => exif,
        Err(e) => return Err(e.to_string()),
    };
    Ok(exif.fields().map(|f| ExifField {
        context: match f.tag.0 {
            exif::Context::Tiff => TagContext::Tiff,
            exif::Context::Exif => TagContext::Exif,
            exif::Context::Gps => TagContext::Gps,
            exif::Context::Interop => TagContext::Interop,
            _ => TagContext::Other,
        },
        number: f.tag.1,
        ascii: match &f.value { exif::Value::Ascii(v) => v.clone(), _ => Vec::new() },
    }).collect())
}

/// The date written with `sep` between year, month and day.
fn date_from_parts(t: &str, sep: char) -> (r: Option<CalDate>)
    ensures
        r == date_with_sep(t@, sep),
{
    let ranges = split_ranges(t, sep);
    if ranges.len() != 3 {
        return None;
    }
    let y = parse_i32(t.substring_char(ranges[0].0, ranges[0].1));
    let m = parse_u32(t.substring_char(ranges[1].0, ranges[1].1));
    let d = parse_u32(t.substring_char(ranges[2].0, ranges[2].1));
    match (y, m, d) {
        (Some(y), Some(m), Some(d)) => CalDate::from_ymd(y, m, d),
        _ => None,
    }
}

/// Reads the calendar date from a date-time text such as
/// `"2023:12:25 14:30:45"` or `"2020-01-15"`; `None` when there is none.
pub fn parse_exif_datetime(datetime_str: &str) -> (r: Option<CalDate>)
    ensures
        r == text_date(datetime_str@),
        r matches Some(d) ==> d.wf(),
{
    let word = first_word_of(datetime_str);
    match date_from_parts(word, ':') {
        Some(d) => Some(d),
        None => date_from_parts(word, '-'),
    }
}

/// The date of the first raw ASCII value that holds one.
pub fn extract_date_from_values(values: &Vec<Vec<u8>>) -> (r: Option<CalDate>)
    ensures
        r == values_date(values.deep_view()),
{
    let ghost vals = values.deep_view();
    let mut i: usize = 0;
    assert(vals.skip(0) =~= vals);
    while i < values.len()
        invariant
            i <= values.len(),
            vals == values.deep_view(),
            values_date(vals) == values_date(vals.skip(i as int)),
        decreases values.len() - i,
    {
        assert(vals.skip(i as int).drop_first() =~= vals.skip(i + 1));
        let raw = values[i].as_slice();
        assert(raw@ == vals[i as int]);
        if let Some(text) = utf8_text(raw) {
            let trimmed = trim_class(trim_class(text, true), false);
            if trimmed.unicode_len() > 0 {
                if let Some(date) = parse_exif_datetime(trimmed) {
                    return Some(date);
                }
            }
        }
        i = i + 1;
    }
    assert(vals.skip(i as int) =~= Seq::<Seq<u8>>::empty());
    None
}

/// The date of the first field with the tag whose values hold one.
fn date_for_tag(fields: &Vec<ExifField>, ctx: TagContext, num: u16) -> (r: Option<CalDate>)
    ensures
        r == tag_date(fields_view(fields@), ctx, num),
{
    let ghost fs = fields_view(fields@);
    let mut i: usize = 0;
    assert(fs.skip(0) =~= fs);
    while i < fields.len()
        invariant
            i <= fields.len(),
            fs == fields_view(fields@),
            tag_date(fs, ctx, num) == tag_date(fs.skip(i as int), ctx, num),
        decreases fields.len() - i,
    {
        assert(fs.skip(i as int).drop_first() =~= fs.skip(i + 1));
        let f = &fields[i];
        assert(fs.skip(i as int)[0] == f.view());
        if f.context == ctx && f.number == num {
            if let Some(date) = extract_date_from_values(&f.ascii) {
                return Some(date);
            }
        }
        i = i + 1;
    }
    assert(fs.skip(i as int) =~= Seq::<FieldView>::empty());
    None
}

/// The capture date from a file's metadata fields, by tag priority.
pub fn capture_date_from_fields(fields: &Vec<ExifField>) -> (r: Option<CalDate>)
    ensures
        r == capture_date(fields_view(fields@)),
{
    if let Some(d) = date_for_tag(fields, TagContext::Exif, TAG_DATE_TIME_ORIGINAL) {
        return Some(d);
    }
    if let Some(d) = date_for_tag(fields, TagContext::Tiff, TAG_DATE_TIME) {
        return Some(d);
    }
    date_for_tag(fields, TagContext::Exif, TAG_DATE_TIME_DIGITIZED)
}

pub open spec fn exif_error_prefix(path: Seq<char>) -> Seq<char> {
    "Failed to read EXIF from "@ + path + ": "@
}

/// The metadata error for the file at `path`: the path, then the reader's
/// own message.
pub fn exif_error(path: &str, cause: String) -> (r: PtimeError)
    ensures
        r matches PtimeError::Exif(m) && m@ == exif_error_prefix(path@) + cause@,
{
    proof {
        reveal_strlit("Failed to read EXIF from ");
        reveal_strlit(": ");
    }
    let mut msg = String::from_str("Failed to read EXIF from ");
    msg.append(path);
    msg.append(": ");
    msg.append(cause.as_str());
    PtimeError::Exif(msg)
}

/// The capture date recorded in the metadata of the file at `path`, whose
/// bytes are `data`; an `Exif` error naming the path and carrying the
/// reader's message when its container cannot be parsed.
pub fn read_capture_date(path: &str, data: Vec<u8>) -> (r: Result<Option<CalDate>, PtimeError>)
    ensures
        match exif_read_of(data@) {
            Ok(fs) => r == Ok::<Option<CalDate>, PtimeError>(capture_date(fs)),
            Err(text) => r matches Err(PtimeError::Exif(m)) && m@ == exif_error_prefix(path@)
                + text,
        },
{
    match read_exif_fields(data) {
        Ok(fields) => Ok(capture_date_from_fields(&fields)),
        Err(cause) => Err(exif_error(path, cause)),
    }
}

/// One step of collection: takes in what reading one file gave. A date adds a
/// record; no date, or a metadata error, skips the file; an I/O error ends the
/// collection and is handed back.
pub fn absorb_outcome(
    photos: &mut Vec<PhotoMeta>,
    rel_path: String,
    outcome: Result<Option<CalDate>, PtimeError>,
) -> (r: Result<(), PtimeError>)
    ensures
        match outcome {
            Ok(Some(d)) => r is Ok && final(photos)@ == old(photos)@.push(
                (PhotoMeta { rel_path, date: d }),
            ),
            Ok(None) => r is Ok && final(photos)@ == old(photos)@,
            Err(e) => final(photos)@ == old(photos)@ && (if e is Io {
                r == Err::<(), PtimeError>(e)
            } else {
                r is Ok
            }),
        },
{
    match outcome {
        Ok(Some(date)) => {
            photos.push(PhotoMeta { rel_path, date });
            Ok(())
        },
        Ok(None) => Ok(()),
        Err(err) => {
            if err.aborts_collection() {
                Err(err)
            } else {
                Ok(())
            }
        },
    }
}

/// A tag none of whose fields holds a readable date gives no date.
pub proof fn lemma_tag_date_none(fs: Seq<FieldView>, ctx: TagContext, num: u16)
    requires
        forall|i: int|
            0 <= i < fs.len() && (#[trigger] fs[i]).0 == ctx && fs[i].1 == num ==> values_date(
                fs[i].2,
            ) is None,
    ensures
        tag_date(fs, ctx, num) is None,
    decreases fs.len(),
{
    if fs.len() > 0 {
        assert forall|i: int|
            0 <= i < fs.drop_first().len() && (#[trigger] fs.drop_first()[i]).0 == ctx
                && fs.drop_first()[i].1 == num implies values_date(fs.drop_first()[i].2) is None by {
            assert(fs.drop_first()[i] == fs[i + 1]);
        }
        lemma_tag_date_none(fs.drop_first(), ctx, num);
    }
}

/// Fields without any DateTimeOriginal or DateTime field take their capture
/// date from the DateTimeDigitized fields.
pub proof fn digitized_tag_alone(fs: Seq<FieldView>)
    requires
        forall|i: int|
            0 <= i < fs.len() ==> !((#[trigger] fs[i]).0 == TagContext::Exif && fs[i].1
                == TAG_DATE_TIME_ORIGINAL) && !(fs[i].0 == TagContext::Tiff && fs[i].1
                == TAG_DATE_TIME),
    ensures
        capture_date(fs) == tag_date(fs, TagContext::Exif, TAG_DATE_TIME_DIGITIZED),
{
    lemma_tag_date_none(fs, TagContext::Exif, TAG_DATE_TIME_ORIGINAL);
    lemma_tag_date_none(fs, TagContext::Tiff, TAG_DATE_TIME);
}

/// DateTimeOriginal fields whose raw values hold no readable date pass the
/// decision on to the DateTime fields, and then to the DateTimeDigitized ones.
pub proof fn unreadable_capture_tag_falls_back(fs: Seq<FieldView>)
    requires
        forall|i: int|
            0 <= i < fs.len() && (#[trigger] fs[i]).0 == TagContext::Exif && fs[i].1
                == TAG_DATE_TIME_ORIGINAL ==> values_date(fs[i].2) is None,
    ensures
        capture_date(fs) == (match tag_date(fs, TagContext::Tiff, TAG_DATE_TIME) {
            Some(d) => Some(d),
            None => tag_date(fs, TagContext::Exif, TAG_DATE_TIME_DIGITIZED),
        }),
{
    lemma_tag_date_none(fs, TagContext::Exif, TAG_DATE_TIME_ORIGINAL);
}

} // verus!
