use ohlcv_store::encoder::encode;
use ohlcv_store::error::{DateError, ResampleError};
use ohlcv_store::index::{DailyIndexEntry, TimeIndexEntry};
use ohlcv_store::layout::Layout;
use ohlcv_store::price::Price;
use ohlcv_store::reader::{ColumnReader, RowReader, StorageReader};
use ohlcv_store::record::ProcessedRecord;
use ohlcv_store::aggregate::aggregate_range;
use ohlcv_store::buckets::bucket_of;
use ohlcv_store::resample::{
    resample_daily, resample_daily_aos, resample_daily_soa, resample_ohlcv, resample_ohlcv_aos,
    resample_ohlcv_soa, OHLCVBar,
};

fn price(value: f64) -> Price {
    Price::from_bits(value.to_bits())
}

fn rec(timestamp: u64, o: f64, h: f64, l: f64, c: f64, volume: u64) -> ProcessedRecord {
    ProcessedRecord {
        timestamp,
        open: price(o),
        high: price(h),
        low: price(l),
        close: price(c),
        volume,
    }
}

fn bar(timestamp: u64, o: f64, h: f64, l: f64, c: f64, volume: u64) -> OHLCVBar {
    OHLCVBar {
        timestamp,
        open: price(o),
        high: price(h),
        low: price(l),
        close: price(c),
        volume,
    }
}

fn time_index(records: &[ProcessedRecord]) -> Vec<TimeIndexEntry> {
    records
        .iter()
        .enumerate()
        .map(|(i, r)| TimeIndexEntry { timestamp: r.timestamp, position: i as u64 })
        .collect()
}

fn day(date: &str, start: u64, end: u64) -> DailyIndexEntry {
    DailyIndexEntry { date: date.to_string(), start_position: start, end_position: end }
}

fn three() -> Vec<ProcessedRecord> {
    vec![
        rec(0, 10.0, 12.0, 9.0, 11.0, 100),
        rec(30, 11.0, 15.0, 10.5, 14.0, 50),
        rec(65, 14.0, 14.5, 13.0, 13.5, 70),
    ]
}

const DAY1_LAST: u64 = 1702598399;
const DAY2_FIRST: u64 = 1702598401;
const DAY1: u64 = 1702512000;
const DAY2: u64 = 1702598400;

fn two_days() -> Vec<ProcessedRecord> {
    vec![
        rec(DAY1_LAST - 3600, 100.0, 105.0, 99.0, 104.0, 10),
        rec(DAY1_LAST - 60, 104.0, 110.0, 103.0, 108.0, 20),
        rec(DAY1_LAST, 108.0, 109.0, 101.0, 102.0, 30),
        rec(DAY2_FIRST, 102.0, 103.0, 98.0, 99.0, 5),
        rec(DAY2_FIRST + 60, 99.0, 120.0, 97.0, 118.0, 7),
    ]
}

#[test]
fn sixty_second_buckets_merge_the_first_two_records() {
    let records = three();
    for layout in [Layout::RowOriented, Layout::ColumnOriented] {
        let buffer = encode(&records, layout);
        let reader = StorageReader::open(&buffer, layout).unwrap();
        let bars = resample_ohlcv(&reader, &time_index(&records), 60).unwrap();
        assert_eq!(
            bars,
            vec![bar(0, 10.0, 15.0, 9.0, 14.0, 150), bar(60, 14.0, 14.5, 13.0, 13.5, 70)]
        );
    }
}

#[test]
fn wider_bucket_takes_all_three_records() {
    let records = three();
    let buffer = encode(&records, Layout::RowOriented);
    let reader = StorageReader::open(&buffer, Layout::RowOriented).unwrap();
    let bars = resample_ohlcv(&reader, &time_index(&records), 120).unwrap();
    assert_eq!(bars, vec![bar(0, 10.0, 15.0, 9.0, 13.5, 220)]);
}

#[test]
fn one_second_buckets_keep_every_record() {
    let records = three();
    let buffer = encode(&records, Layout::ColumnOriented);
    let reader = StorageReader::open(&buffer, Layout::ColumnOriented).unwrap();
    let bars = resample_ohlcv(&reader, &time_index(&records), 1).unwrap();
    assert_eq!(
        bars,
        vec![
            bar(0, 10.0, 12.0, 9.0, 11.0, 100),
            bar(30, 11.0, 15.0, 10.5, 14.0, 50),
            bar(65, 14.0, 14.5, 13.0, 13.5, 70),
        ]
    );
}

#[test]
fn bucket_start_is_the_multiple_at_or_before() {
    assert_eq!(bucket_of(0, 60), 0);
    assert_eq!(bucket_of(59, 60), 0);
    assert_eq!(bucket_of(60, 60), 60);
    assert_eq!(bucket_of(65, 60), 60);
    assert_eq!(bucket_of(1702544461, 300), 1702544400);
    assert_eq!(bucket_of(u64::MAX, 1), u64::MAX);
    assert_eq!(bucket_of(u64::MAX, u64::MAX), u64::MAX);
    assert_eq!(bucket_of(u64::MAX - 1, u64::MAX), 0);
    assert_eq!(bucket_of(7, 86_400), 0);
}

#[test]
fn records_out_of_time_order_are_not_regrouped() {
    let records = vec![
        rec(10, 1.0, 2.0, 0.5, 1.5, 1),
        rec(70, 2.0, 3.0, 1.5, 2.5, 2),
        rec(20, 3.0, 4.0, 2.5, 3.5, 4),
    ];
    let buffer = encode(&records, Layout::RowOriented);
    let reader = StorageReader::open(&buffer, Layout::RowOriented).unwrap();
    let bars = resample_ohlcv(&reader, &time_index(&records), 60).unwrap();
    assert_eq!(
        bars,
        vec![
            bar(0, 1.0, 2.0, 0.5, 1.5, 1),
            bar(60, 2.0, 3.0, 1.5, 2.5, 2),
            bar(0, 3.0, 4.0, 2.5, 3.5, 4),
        ]
    );
}

#[test]
fn bucket_goes_by_the_stored_timestamp_and_the_index_order() {
    let records = three();
    let buffer = encode(&records, Layout::RowOriented);
    let reader = StorageReader::open(&buffer, Layout::RowOriented).unwrap();
    let index = vec![
        TimeIndexEntry { timestamp: 999, position: 2 },
        TimeIndexEntry { timestamp: 999, position: 0 },
        TimeIndexEntry { timestamp: 999, position: 1 },
    ];
    let bars = resample_ohlcv(&reader, &index, 60).unwrap();
    assert_eq!(
        bars,
        vec![bar(60, 14.0, 14.5, 13.0, 13.5, 70), bar(0, 10.0, 15.0, 9.0, 14.0, 150)]
    );
}

#[test]
fn time_entry_past_the_end_gives_no_bar() {
    let records = three();
    let buffer = encode(&records, Layout::RowOriented);
    let reader = StorageReader::open(&buffer, Layout::RowOriented).unwrap();
    let mut index = time_index(&records);
    index.insert(1, TimeIndexEntry { timestamp: 15, position: 3 });
    index.insert(0, TimeIndexEntry { timestamp: 0, position: u64::MAX });
    index.push(TimeIndexEntry { timestamp: 70, position: 1 << 40 });
    let bars = resample_ohlcv(&reader, &index, 60).unwrap();
    assert_eq!(
        bars,
        vec![bar(0, 10.0, 15.0, 9.0, 14.0, 150), bar(60, 14.0, 14.5, 13.0, 13.5, 70)]
    );
    let only_bad = vec![TimeIndexEntry { timestamp: 0, position: 3 }];
    assert_eq!(resample_ohlcv(&reader, &only_bad, 60), Ok(Vec::new()));
}

#[test]
fn no_records_give_no_bars() {
    let records: Vec<ProcessedRecord> = Vec::new();
    for layout in [Layout::RowOriented, Layout::ColumnOriented] {
        let buffer = encode(&records, layout);
        let reader = StorageReader::open(&buffer, layout).unwrap();
        for seconds in [60u64, 120, 180, 240, 300] {
            assert_eq!(resample_ohlcv(&reader, &[], seconds), Ok(Vec::new()));
            let stale = vec![TimeIndexEntry { timestamp: 5, position: 0 }];
            assert_eq!(resample_ohlcv(&reader, &stale, seconds), Ok(Vec::new()));
        }
        assert_eq!(resample_daily(&reader, &[]), Ok(Vec::new()));
        let stale = vec![day("2023-12-14", 0, 0), day("not a date", 0, 3)];
        assert_eq!(resample_daily(&reader, &stale), Ok(Vec::new()));
    }
}

#[test]
fn no_entries_give_no_bars() {
    let records = three();
    let buffer = encode(&records, Layout::RowOriented);
    let reader = StorageReader::open(&buffer, Layout::RowOriented).unwrap();
    assert_eq!(resample_ohlcv(&reader, &[], 60), Ok(Vec::new()));
    assert_eq!(resample_daily(&reader, &[]), Ok(Vec::new()));
}

#[test]
fn bucket_volume_beyond_a_bar_is_an_error() {
    let records = vec![
        rec(0, 1.0, 1.0, 1.0, 1.0, u64::MAX),
        rec(1, 1.0, 1.0, 1.0, 1.0, 1),
        rec(100, 1.0, 1.0, 1.0, 1.0, 1),
    ];
    let buffer = encode(&records, Layout::RowOriented);
    let reader = StorageReader::open(&buffer, Layout::RowOriented).unwrap();
    let index = time_index(&records);
    assert_eq!(resample_ohlcv(&reader, &index, 60), Err(ResampleError::VolumeOverflow));
    let bars = resample_ohlcv(&reader, &index, 1).unwrap();
    assert_eq!(bars.len(), 3);
    assert_eq!(bars[0].volume, u64::MAX);
    let edge = vec![rec(0, 1.0, 1.0, 1.0, 1.0, u64::MAX - 1), rec(1, 1.0, 1.0, 1.0, 1.0, 1)];
    let buffer = encode(&edge, Layout::RowOriented);
    let reader = StorageReader::open(&buffer, Layout::RowOriented).unwrap();
    let bars = resample_ohlcv(&reader, &time_index(&edge), 60).unwrap();
    assert_eq!(bars, vec![bar(0, 1.0, 1.0, 1.0, 1.0, u64::MAX)]);
}

#[test]
fn two_calendar_days_give_two_bars() {
    let records = two_days();
    let index = vec![day("2023-12-14", 0, 2), day("2023-12-15", 3, 4)];
    for layout in [Layout::RowOriented, Layout::ColumnOriented] {
        let buffer = encode(&records, layout);
        let reader = StorageReader::open(&buffer, layout).unwrap();
        let bars = resample_daily(&reader, &index).unwrap();
        assert_eq!(
            bars,
            vec![
                bar(DAY1, 100.0, 110.0, 99.0, 102.0, 60),
                bar(DAY2, 102.0, 120.0, 97.0, 118.0, 12),
            ]
        );
    }
}

#[test]
fn daily_bucket_of_the_same_records_by_width() {
    let records = two_days();
    let buffer = encode(&records, Layout::RowOriented);
    let reader = StorageReader::open(&buffer, Layout::RowOriented).unwrap();
    let bars = resample_ohlcv(&reader, &time_index(&records), 86_400).unwrap();
    assert_eq!(
        bars,
        vec![
            bar(DAY1, 100.0, 110.0, 99.0, 102.0, 60),
            bar(DAY2, 102.0, 120.0, 97.0, 118.0, 12),
        ]
    );
}

#[test]
fn daily_entry_out_of_range_gives_no_bar() {
    let records = two_days();
    let buffer = encode(&records, Layout::RowOriented);
    let reader = StorageReader::open(&buffer, Layout::RowOriented).unwrap();
    let index = vec![
        day("2023-12-13", 2, 1),
        day("2023-12-14", 0, 2),
        day("2023-12-16", 5, 5),
        day("2023-12-16", 4, 5),
        day("garbage", 7, 3),
        day("2023-12-15", 3, 4),
        day("2023-12-17", u64::MAX, u64::MAX),
        day("2023-12-17", 0, u64::MAX),
    ];
    let bars = resample_daily(&reader, &index).unwrap();
    assert_eq!(
        bars,
        vec![
            bar(DAY1, 100.0, 110.0, 99.0, 102.0, 60),
            bar(DAY2, 102.0, 120.0, 97.0, 118.0, 12),
        ]
    );
}

#[test]
fn daily_entry_of_one_row_is_that_row() {
    let records = two_days();
    let buffer = encode(&records, Layout::ColumnOriented);
    let reader = StorageReader::open(&buffer, Layout::ColumnOriented).unwrap();
    let bars = resample_daily(&reader, &[day("2023-12-15", 4, 4)]).unwrap();
    assert_eq!(bars, vec![bar(DAY2, 99.0, 120.0, 97.0, 118.0, 7)]);
}

#[test]
fn daily_entry_with_unreadable_date_is_an_error() {
    let records = two_days();
    let buffer = encode(&records, Layout::RowOriented);
    let reader = StorageReader::open(&buffer, Layout::RowOriented).unwrap();
    let index = vec![day("2023-12-14", 0, 2), day("15.12.2023", 3, 4)];
    assert_eq!(
        resample_daily(&reader, &index),
        Err(ResampleError::BadDate { entry: 1, cause: DateError::Malformed })
    );
    let index = vec![day("1969-12-31", 0, 2), day("15.12.2023", 3, 4)];
    assert_eq!(
        resample_daily(&reader, &index),
        Err(ResampleError::BadDate { entry: 0, cause: DateError::BeforeEpoch })
    );
}

#[test]
fn daily_volume_beyond_a_bar_is_an_error() {
    let records = vec![
        rec(DAY1, 1.0, 1.0, 1.0, 1.0, u64::MAX),
        rec(DAY1 + 1, 1.0, 1.0, 1.0, 1.0, 1),
    ];
    let buffer = encode(&records, Layout::RowOriented);
    let reader = StorageReader::open(&buffer, Layout::RowOriented).unwrap();
    assert_eq!(
        resample_daily(&reader, &[day("2023-12-14", 0, 1)]),
        Err(ResampleError::VolumeOverflow)
    );
    assert_eq!(
        resample_daily(&reader, &[day("bad", 0, 1)]),
        Err(ResampleError::BadDate { entry: 0, cause: DateError::Malformed })
    );
    assert_eq!(
        resample_daily(&reader, &[day("2023-12-14", 0, 0)]).unwrap(),
        vec![bar(DAY1, 1.0, 1.0, 1.0, 1.0, u64::MAX)]
    );
}

#[test]
fn range_is_aggregated_under_the_given_timestamp() {
    let records = two_days();
    let buffer = encode(&records, Layout::RowOriented);
    let reader = StorageReader::open(&buffer, Layout::RowOriented).unwrap();
    assert_eq!(aggregate_range(&reader, 1, 3, 42), Ok(bar(42, 104.0, 110.0, 98.0, 99.0, 55)));
    assert_eq!(aggregate_range(&reader, 0, 4, 0), Ok(bar(0, 100.0, 120.0, 97.0, 118.0, 72)));
    assert_eq!(aggregate_range(&reader, 2, 2, 7), Ok(bar(7, 108.0, 109.0, 101.0, 102.0, 30)));
}

#[test]
fn high_and_low_of_negative_prices() {
    let records = vec![
        rec(0, -5.0, -1.0, -9.0, -4.0, 1),
        rec(1, -4.0, -3.0, -12.0, -6.0, 2),
        rec(2, -6.0, 0.5, -7.0, 0.25, 3),
    ];
    let buffer = encode(&records, Layout::ColumnOriented);
    let reader = StorageReader::open(&buffer, Layout::ColumnOriented).unwrap();
    assert_eq!(aggregate_range(&reader, 0, 2, 0), Ok(bar(0, -5.0, 0.5, -12.0, 0.25, 6)));
    assert_eq!(aggregate_range(&reader, 0, 1, 0), Ok(bar(0, -5.0, -1.0, -12.0, -6.0, 3)));
}

#[test]
fn typed_readers_aggregate_alike() {
    let records = two_days();
    let rows = encode(&records, Layout::RowOriented);
    let columns = encode(&records, Layout::ColumnOriented);
    let aos = RowReader::open(&rows).unwrap();
    let soa = ColumnReader::open(&columns).unwrap();
    let times = time_index(&records);
    let days = vec![day("2023-12-14", 0, 2), day("2023-12-15", 3, 4)];
    for seconds in [60u64, 120, 180, 240, 300] {
        let a = resample_ohlcv_aos(&aos, &times, seconds).unwrap();
        let b = resample_ohlcv_soa(soa, &times, seconds).unwrap();
        assert_eq!(a, b);
        assert_eq!(a, resample_ohlcv(&aos.reader(), &times, seconds).unwrap());
    }
    let a = resample_daily_aos(&aos, &days).unwrap();
    let b = resample_daily_soa(soa, &days).unwrap();
    assert_eq!(a, b);
    assert_eq!(a.len(), 2);
    assert_eq!(a[0], bar(DAY1, 100.0, 110.0, 99.0, 102.0, 60));
}

#[test]
fn five_minute_bars_of_a_morning() {
    let start = 1702544400;
    let mut records = Vec::new();
    for i in 0..12u64 {
        let base = 100.0 + i as f64;
        records.push(rec(start + 60 * i, base, base + 2.0, base - 1.0, base + 1.0, 10 + i));
    }
    let buffer = encode(&records, Layout::RowOriented);
    let reader = StorageReader::open(&buffer, Layout::RowOriented).unwrap();
    let bars = resample_ohlcv(&reader, &time_index(&records), 300).unwrap();
    assert_eq!(
        bars,
        vec![
            bar(start, 100.0, 106.0, 99.0, 105.0, 60),
            bar(start + 300, 105.0, 111.0, 104.0, 110.0, 85),
            bar(start + 600, 110.0, 113.0, 109.0, 112.0, 41),
        ]
    );
    let bars = resample_ohlcv(&reader, &time_index(&records), 180).unwrap();
    assert_eq!(bars.len(), 4);
    assert_eq!(bars[0], bar(start, 100.0, 104.0, 99.0, 103.0, 33));
    assert_eq!(bars[3], bar(start + 540, 109.0, 113.0, 108.0, 112.0, 60));
}

#[test]
fn daily_bars_are_stamped_at_midnight() {
    let records = two_days();
    let buffer = encode(&records, Layout::RowOriented);
    let reader = StorageReader::open(&buffer, Layout::RowOriented).unwrap();
    let index = vec![
        day("2023-12-14", 0, 2),
        day("2023-12-15", 3, 4),
        day("1970-01-01", 0, 0),
        day("2000-02-29", 1, 1),
    ];
    let bars = resample_daily(&reader, &index).unwrap();
    assert_eq!(bars.len(), 4);
    for bar in &bars {
        assert_eq!(bar.timestamp % 86_400, 0);
    }
    assert_eq!(bars[2].timestamp, 0);
    assert_eq!(bars[3].timestamp, 951782400);
}
