use ohlcv_store::cli::Timeframe;
use ohlcv_store::csv_processor::convert_csv_to_flatbuffer;
use ohlcv_store::encoder::encode;
use ohlcv_store::error::{ConfigError, DecodeError, DateError, ProcessError, ResampleError};
use ohlcv_store::index::{DailyIndexEntry, FullIndex};
use ohlcv_store::layout::Layout;
use ohlcv_store::price::Price;
use ohlcv_store::query::{first_bars, first_records, process_file, resample_timeframe, FileReport};
use ohlcv_store::reader::StorageReader;
use ohlcv_store::record::CsvRecord;
use ohlcv_store::resample::OHLCVBar;

fn price(value: f64) -> Price {
    Price::from_bits(value.to_bits())
}

fn rows(count: u64) -> Vec<CsvRecord> {
    let mut out = Vec::new();
    for i in 0..count {
        let minute = i % 60;
        let hour = 9 + i / 60;
        out.push(CsvRecord {
            date: "20231214".to_string(),
            time: format!("{:02}{:02}00", hour, minute),
            open: price(100.0 + i as f64),
            high: price(101.0 + i as f64),
            low: price(99.0 + i as f64),
            close: price(100.5 + i as f64),
            volume: 1 + i,
        });
    }
    out
}

fn records_of(report: FileReport) -> Vec<u64> {
    match report {
        FileReport::Records(rows) => rows.iter().map(|r| r.timestamp).collect(),
        FileReport::Bars(_) => panic!("bars where records were expected"),
    }
}

fn bars_of(report: FileReport) -> Vec<OHLCVBar> {
    match report {
        FileReport::Bars(bars) => bars,
        FileReport::Records(_) => panic!("records where bars were expected"),
    }
}

const START: u64 = 1702544400;

#[test]
fn report_without_timeframe_shows_the_first_five_records() {
    for layout in [Layout::RowOriented, Layout::ColumnOriented] {
        let (buffer, index) = convert_csv_to_flatbuffer(&rows(12), layout).unwrap();
        let report = process_file(&buffer, &index, &None, layout).unwrap();
        assert_eq!(
            records_of(report),
            vec![START, START + 60, START + 120, START + 180, START + 240]
        );
        let (buffer, index) = convert_csv_to_flatbuffer(&rows(2), layout).unwrap();
        let report = process_file(&buffer, &index, &None, layout).unwrap();
        assert_eq!(records_of(report), vec![START, START + 60]);
    }
}

#[test]
fn report_with_timeframe_shows_the_first_five_bars() {
    let (buffer, index) = convert_csv_to_flatbuffer(&rows(30), Layout::RowOriented).unwrap();
    let label = Some("2min".to_string());
    let bars = bars_of(process_file(&buffer, &index, &label, Layout::RowOriented).unwrap());
    assert_eq!(bars.len(), 5);
    for (k, bar) in bars.iter().enumerate() {
        let k = k as u64;
        assert_eq!(bar.timestamp, START + 120 * k);
        assert_eq!(bar.open, price(100.0 + 2.0 * k as f64));
        assert_eq!(bar.high, price(102.0 + 2.0 * k as f64));
        assert_eq!(bar.low, price(99.0 + 2.0 * k as f64));
        assert_eq!(bar.close, price(101.5 + 2.0 * k as f64));
        assert_eq!(bar.volume, 4 * k + 3);
    }
    let label = Some("1min".to_string());
    let bars = bars_of(process_file(&buffer, &index, &label, Layout::RowOriented).unwrap());
    assert_eq!(bars.len(), 5);
    assert_eq!(bars[4].timestamp, START + 240);
    assert_eq!(bars[4].volume, 5);
    let label = Some("1d".to_string());
    let bars = bars_of(process_file(&buffer, &index, &label, Layout::RowOriented).unwrap());
    assert_eq!(bars.len(), 1);
    assert_eq!(bars[0].timestamp, 1702512000);
    assert_eq!(bars[0].open, price(100.0));
    assert_eq!(bars[0].high, price(130.0));
    assert_eq!(bars[0].low, price(99.0));
    assert_eq!(bars[0].close, price(129.5));
    assert_eq!(bars[0].volume, 465);
}

#[test]
fn unknown_label_is_refused_before_the_bytes_are_looked_at() {
    let (_, index) = convert_csv_to_flatbuffer(&rows(3), Layout::RowOriented).unwrap();
    let label = Some("7min".to_string());
    assert_eq!(
        process_file(&[], &index, &label, Layout::RowOriented).err(),
        Some(ProcessError::Config(ConfigError::UnknownTimeframe))
    );
}

#[test]
fn buffer_of_the_other_layout_is_refused() {
    let (buffer, index) = convert_csv_to_flatbuffer(&rows(3), Layout::RowOriented).unwrap();
    assert_eq!(
        process_file(&buffer, &index, &None, Layout::ColumnOriented).err(),
        Some(ProcessError::Decode(DecodeError::LayoutMismatch))
    );
    let label = Some("1d".to_string());
    assert_eq!(
        process_file(&buffer[..10], &index, &label, Layout::RowOriented).err(),
        Some(ProcessError::Decode(DecodeError::Truncated))
    );
}

#[test]
fn failed_aggregation_is_reported() {
    let (buffer, mut index) = convert_csv_to_flatbuffer(&rows(3), Layout::ColumnOriented).unwrap();
    index.daily_index = vec![DailyIndexEntry {
        date: "14/12/2023".to_string(),
        start_position: 0,
        end_position: 2,
    }];
    let label = Some("1d".to_string());
    assert_eq!(
        process_file(&buffer, &index, &label, Layout::ColumnOriented).err(),
        Some(ProcessError::Resample(ResampleError::BadDate {
            entry: 0,
            cause: DateError::Malformed
        }))
    );
}

#[test]
fn stale_index_gives_an_empty_report() {
    let (_, index) = convert_csv_to_flatbuffer(&rows(8), Layout::RowOriented).unwrap();
    let empty = encode(&Vec::new(), Layout::RowOriented);
    for label in ["1min", "2min", "3min", "4min", "5min", "1d"] {
        let report = process_file(&empty, &index, &Some(label.to_string()), Layout::RowOriented);
        assert!(bars_of(report.unwrap()).is_empty());
    }
    assert!(records_of(process_file(&empty, &index, &None, Layout::RowOriented).unwrap()).is_empty());
}

#[test]
fn timeframe_picks_its_index() {
    let (buffer, index) = convert_csv_to_flatbuffer(&rows(10), Layout::RowOriented).unwrap();
    let reader = StorageReader::open(&buffer, Layout::RowOriented).unwrap();
    let five = resample_timeframe(&reader, &index, Timeframe::Seconds(300)).unwrap();
    assert_eq!(five.len(), 2);
    assert_eq!(five[1].timestamp, START + 300);
    assert_eq!(five[1].volume, 6 + 7 + 8 + 9 + 10);
    let daily = resample_timeframe(&reader, &index, Timeframe::Daily).unwrap();
    assert_eq!(daily.len(), 1);
    let no_index = FullIndex {
        time_index: Vec::new(),
        daily_index: Vec::new(),
        timeframe_index: Vec::new(),
    };
    assert_eq!(resample_timeframe(&reader, &no_index, Timeframe::Daily), Ok(Vec::new()));
    assert_eq!(resample_timeframe(&reader, &no_index, Timeframe::Seconds(60)), Ok(Vec::new()));
}

#[test]
fn head_of_records_and_bars() {
    let (buffer, index) = convert_csv_to_flatbuffer(&rows(4), Layout::ColumnOriented).unwrap();
    let reader = StorageReader::open(&buffer, Layout::ColumnOriented).unwrap();
    assert_eq!(first_records(&reader, 0).len(), 0);
    assert_eq!(first_records(&reader, 3).len(), 3);
    assert_eq!(first_records(&reader, 4).len(), 4);
    assert_eq!(first_records(&reader, usize::MAX).len(), 4);
    assert_eq!(first_records(&reader, 2)[1], reader.get(1));
    let bars = resample_timeframe(&reader, &index, Timeframe::Seconds(60)).unwrap();
    assert_eq!(first_bars(&bars, 0), Vec::new());
    assert_eq!(first_bars(&bars, 2), bars[..2].to_vec());
    assert_eq!(first_bars(&bars, 9), bars);
}
