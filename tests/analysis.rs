use ptime::analysis::{build_histogram, find_latest, find_oldest};
use ptime::date::CalDate;
use ptime::metadata::PhotoMeta;

fn make_photo(path: &str, year: i32, month: u32, day: u32) -> PhotoMeta {
    PhotoMeta {
        rel_path: String::from(path),
        date: CalDate::from_ymd(year, month, day).unwrap(),
    }
}

#[test]
fn test_find_oldest_empty() {
    let photos: Vec<PhotoMeta> = vec![];
    assert!(find_oldest(&photos).is_none());
}

#[test]
fn test_find_oldest_single() {
    let photos = vec![make_photo("a.jpg", 2020, 1, 1)];
    let result = find_oldest(&photos).unwrap();
    assert_eq!(result.rel_path, "a.jpg");
}

#[test]
fn test_find_oldest_multiple() {
    let photos = vec![
        make_photo("c.jpg", 2022, 6, 15),
        make_photo("a.jpg", 2020, 3, 10),
        make_photo("b.jpg", 2021, 12, 25),
    ];
    let result = find_oldest(&photos).unwrap();
    assert_eq!(result.rel_path, "a.jpg");
    assert_eq!(result.date.year(), 2020);
}

#[test]
fn test_find_oldest_with_tie_breaking() {
    let photos = vec![
        make_photo("z.jpg", 2020, 1, 1),
        make_photo("a.jpg", 2020, 1, 1),
        make_photo("m.jpg", 2020, 1, 1),
    ];
    let result = find_oldest(&photos).unwrap();
    assert_eq!(result.rel_path, "a.jpg");
}

#[test]
fn test_find_latest_empty() {
    let photos: Vec<PhotoMeta> = vec![];
    assert!(find_latest(&photos).is_none());
}

#[test]
fn test_find_latest_single() {
    let photos = vec![make_photo("a.jpg", 2020, 1, 1)];
    let result = find_latest(&photos).unwrap();
    assert_eq!(result.rel_path, "a.jpg");
}

#[test]
fn test_find_latest_multiple() {
    let photos = vec![
        make_photo("c.jpg", 2022, 6, 15),
        make_photo("a.jpg", 2020, 3, 10),
        make_photo("b.jpg", 2021, 12, 25),
    ];
    let result = find_latest(&photos).unwrap();
    assert_eq!(result.rel_path, "c.jpg");
    assert_eq!(result.date.year(), 2022);
}

#[test]
fn test_find_latest_with_tie_breaking() {
    let photos = vec![
        make_photo("z.jpg", 2023, 12, 31),
        make_photo("a.jpg", 2023, 12, 31),
        make_photo("m.jpg", 2023, 12, 31),
    ];
    let result = find_latest(&photos).unwrap();
    assert_eq!(result.rel_path, "a.jpg");
}

#[test]
fn test_build_histogram_empty() {
    let photos: Vec<PhotoMeta> = vec![];
    let hist = build_histogram(&photos);
    assert!(hist.is_empty());
}

#[test]
fn test_build_histogram_single_year() {
    let photos = vec![
        make_photo("a.jpg", 2020, 1, 1),
        make_photo("b.jpg", 2020, 6, 15),
        make_photo("c.jpg", 2020, 12, 31),
    ];
    let hist = build_histogram(&photos);
    assert_eq!(hist.len(), 1);
    assert_eq!(hist.get(&2020), Some(&3));
}

#[test]
fn test_build_histogram_multiple_years() {
    let photos = vec![
        make_photo("a.jpg", 2020, 1, 1),
        make_photo("b.jpg", 2020, 6, 15),
        make_photo("c.jpg", 2022, 3, 10),
        make_photo("d.jpg", 2023, 7, 20),
    ];
    let hist = build_histogram(&photos);
    assert_eq!(hist.len(), 4);
    assert_eq!(hist.get(&2020), Some(&2));
    assert_eq!(hist.get(&2021), Some(&0));
    assert_eq!(hist.get(&2022), Some(&1));
    assert_eq!(hist.get(&2023), Some(&1));
}

#[test]
fn test_build_histogram_fills_gaps() {
    let photos = vec![
        make_photo("a.jpg", 2018, 1, 1),
        make_photo("b.jpg", 2022, 1, 1),
    ];
    let hist = build_histogram(&photos);
    assert_eq!(hist.len(), 5);
    assert_eq!(hist.get(&2018), Some(&1));
    assert_eq!(hist.get(&2019), Some(&0));
    assert_eq!(hist.get(&2020), Some(&0));
    assert_eq!(hist.get(&2021), Some(&0));
    assert_eq!(hist.get(&2022), Some(&1));
}

#[test]
fn oldest_and_latest_bound_every_date() {
    let photos = vec![
        make_photo("x/b.jpg", 2019, 5, 5),
        make_photo("x/a.jpg", 2019, 5, 4),
        make_photo("y.jpg", 2024, 1, 1),
        make_photo("w.jpg", 2019, 5, 4),
        make_photo("v.jpg", 2024, 1, 1),
    ];
    let oldest = find_oldest(&photos).unwrap();
    let latest = find_latest(&photos).unwrap();
    assert_eq!(oldest.rel_path, "w.jpg");
    assert_eq!(latest.rel_path, "v.jpg");
    for p in &photos {
        assert!(oldest.date.on_or_before(&p.date));
        assert!(p.date.on_or_before(&latest.date));
    }
}

#[test]
fn tie_break_on_path_prefix_and_case() {
    let photos = vec![
        make_photo("ab.jpg", 2020, 1, 1),
        make_photo("a.jpg", 2020, 1, 1),
        make_photo("B.jpg", 2020, 1, 1),
    ];
    assert_eq!(find_oldest(&photos).unwrap().rel_path, "B.jpg");
    assert_eq!(find_latest(&photos).unwrap().rel_path, "B.jpg");
}

#[test]
fn histogram_counts_sum_to_records() {
    let photos = vec![
        make_photo("a.jpg", 2015, 1, 1),
        make_photo("b.jpg", 2013, 2, 2),
        make_photo("c.jpg", 2015, 3, 3),
        make_photo("d.jpg", 2017, 4, 4),
    ];
    let hist = build_histogram(&photos);
    assert_eq!(hist.len(), 5);
    let mut total = 0;
    for i in 0..hist.len() {
        let (year, count) = hist.entry(i);
        assert_eq!(year, 2013 + i as i32);
        total += count;
    }
    assert_eq!(total, 4);
    assert_eq!(hist.get(&2014), Some(&0));
    assert_eq!(hist.get(&2016), Some(&0));
    assert_eq!(hist.get(&2012), None);
}

#[test]
fn histogram_of_negative_and_far_years() {
    let photos = vec![make_photo("a.jpg", -1, 6, 1), make_photo("b.jpg", 1, 6, 1)];
    let hist = build_histogram(&photos);
    assert_eq!(hist.len(), 3);
    assert_eq!(hist.entry(0), (-1, 1));
    assert_eq!(hist.entry(1), (0, 0));
    assert_eq!(hist.entry(2), (1, 1));
}
