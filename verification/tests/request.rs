use ohlcv_store::cli::{
    buffer_file_name, companion_index_name, determine_storage_format_from_path,
    effective_threads, parse_usize_positive, positive_from_parsed, timeframe_for_label, Args,
    Timeframe,
};
use ohlcv_store::error::ConfigError;
use ohlcv_store::layout::Layout;

fn args(threads: Option<usize>, check: bool, resample: Option<&str>) -> Args {
    Args {
        input: "in".to_string(),
        output: "out".to_string(),
        threads,
        check,
        resample: resample.map(|s| s.to_string()),
    }
}

#[test]
fn thread_count_is_read_from_text() {
    assert_eq!(parse_usize_positive("1"), Ok(1));
    assert_eq!(parse_usize_positive("8"), Ok(8));
    assert_eq!(parse_usize_positive("+16"), Ok(16));
    assert_eq!(parse_usize_positive("007"), Ok(7));
}

#[test]
fn zero_threads_are_refused_in_words() {
    assert_eq!(parse_usize_positive("0"), Err("Must be a positive integer".to_string()));
    assert_eq!(parse_usize_positive("000"), Err("Must be a positive integer".to_string()));
}

#[test]
fn text_that_is_no_number_is_refused_in_words() {
    for text in ["", "abc", "-3", "1.5", " 4", "4 ", "1_000", "99999999999999999999999999"] {
        let message = parse_usize_positive(text).unwrap_err();
        assert!(message.starts_with("Not a valid number: "));
        assert!(message.len() > "Not a valid number: ".len());
    }
}

#[test]
fn parsed_count_is_held_to_the_rule() {
    assert_eq!(positive_from_parsed(Ok(3)), Ok(3));
    assert_eq!(positive_from_parsed(Ok(usize::MAX)), Ok(usize::MAX));
    assert_eq!(positive_from_parsed(Ok(0)), Err("Must be a positive integer".to_string()));
    assert_eq!(
        positive_from_parsed(Err("no digits".to_string())),
        Err("Not a valid number: no digits".to_string())
    );
    assert_eq!(
        positive_from_parsed(Err(String::new())),
        Err("Not a valid number: ".to_string())
    );
}

#[test]
fn workers_are_capped_at_what_the_machine_offers() {
    assert_eq!(effective_threads(Some(4), 8, 2), Ok(4));
    assert_eq!(effective_threads(Some(8), 8, 2), Ok(8));
    assert_eq!(effective_threads(Some(9), 8, 2), Ok(8));
    assert_eq!(effective_threads(Some(usize::MAX), 1, 2), Ok(1));
    assert_eq!(effective_threads(None, 8, 2), Ok(2));
    assert_eq!(effective_threads(None, 8, 16), Ok(16));
    assert_eq!(effective_threads(Some(0), 8, 2), Err(ConfigError::ZeroThreads));
}

#[test]
fn request_labels_name_their_buckets() {
    assert_eq!(timeframe_for_label("1min"), Some(Timeframe::Seconds(60)));
    assert_eq!(timeframe_for_label("2min"), Some(Timeframe::Seconds(120)));
    assert_eq!(timeframe_for_label("3min"), Some(Timeframe::Seconds(180)));
    assert_eq!(timeframe_for_label("4min"), Some(Timeframe::Seconds(240)));
    assert_eq!(timeframe_for_label("5min"), Some(Timeframe::Seconds(300)));
    assert_eq!(timeframe_for_label("1d"), Some(Timeframe::Daily));
}

#[test]
fn other_labels_name_nothing() {
    for label in ["", "1m", "6min", "1D", "1min ", " 1min", "2d", "1h", "min", "1mins"] {
        assert_eq!(timeframe_for_label(label), None);
    }
}

#[test]
fn sound_requests_pass() {
    assert_eq!(args(None, false, None).validate(), Ok(()));
    assert_eq!(args(Some(1), false, None).validate(), Ok(()));
    assert_eq!(args(Some(4), true, None).validate(), Ok(()));
    assert_eq!(args(None, true, Some("1d")).validate(), Ok(()));
    assert_eq!(args(Some(2), true, Some("3min")).validate(), Ok(()));
}

#[test]
fn faulty_requests_are_turned_down() {
    assert_eq!(args(Some(0), true, Some("1d")).validate(), Err(ConfigError::ZeroThreads));
    assert_eq!(args(Some(0), false, Some("x")).validate(), Err(ConfigError::ZeroThreads));
    assert_eq!(
        args(None, false, Some("5min")).validate(),
        Err(ConfigError::ResampleWithoutCheck)
    );
    assert_eq!(
        args(None, false, Some("nonsense")).validate(),
        Err(ConfigError::ResampleWithoutCheck)
    );
    assert_eq!(args(None, true, Some("6min")).validate(), Err(ConfigError::UnknownTimeframe));
    assert_eq!(args(Some(3), true, Some("")).validate(), Err(ConfigError::UnknownTimeframe));
}

#[test]
fn file_name_declares_the_layout() {
    assert_eq!(determine_storage_format_from_path("sber.aos.bin"), Some(Layout::RowOriented));
    assert_eq!(determine_storage_format_from_path("sber.soa.bin"), Some(Layout::ColumnOriented));
    assert_eq!(determine_storage_format_from_path(".aos.bin"), Some(Layout::RowOriented));
    assert_eq!(determine_storage_format_from_path(".soa.bin"), Some(Layout::ColumnOriented));
    assert_eq!(
        determine_storage_format_from_path("котировки.soa.bin"),
        Some(Layout::ColumnOriented)
    );
    assert_eq!(determine_storage_format_from_path("a.soa.bin.aos.bin"), Some(Layout::RowOriented));
}

#[test]
fn other_file_names_declare_none() {
    for name in ["", "sber.bin", "sber.aos", "aos.bin", "sber.aos.bin.idx", "sber.AOS.bin", "sber.aos.bin "] {
        assert_eq!(determine_storage_format_from_path(name), None);
    }
}

#[test]
fn buffer_file_is_named_after_its_layout() {
    assert_eq!(buffer_file_name("sber", Layout::RowOriented), "sber.aos.bin");
    assert_eq!(buffer_file_name("sber", Layout::ColumnOriented), "sber.soa.bin");
    assert_eq!(buffer_file_name("", Layout::RowOriented), ".aos.bin");
    assert_eq!(buffer_file_name("a.b", Layout::ColumnOriented), "a.b.soa.bin");
}

#[test]
fn name_of_a_buffer_file_declares_its_layout() {
    for stem in ["", "sber", "x.soa.bin", "x.aos.bin", "данные", "a b"] {
        for layout in [Layout::RowOriented, Layout::ColumnOriented] {
            let name = buffer_file_name(stem, layout);
            assert_eq!(determine_storage_format_from_path(&name), Some(layout));
        }
    }
}

#[test]
fn index_file_stands_beside_its_buffer() {
    assert_eq!(companion_index_name("sber.aos.bin"), "sber.aos.idx");
    assert_eq!(companion_index_name("sber.soa.bin"), "sber.soa.idx");
    assert_eq!(companion_index_name("sber.bin"), "sber.idx");
    assert_eq!(companion_index_name(".bin"), ".idx");
    assert_eq!(companion_index_name("sber"), "sber.idx");
    assert_eq!(companion_index_name("sber.bin.txt"), "sber.bin.txt.idx");
    assert_eq!(companion_index_name(""), ".idx");
    assert_eq!(companion_index_name("данные.aos.bin"), "данные.aos.idx");
}

#[test]
fn thread_count_text_has_the_shape_of_a_numeral() {
    assert_eq!(parse_usize_positive("+0"), Err("Must be a positive integer".to_string()));
    assert_eq!(parse_usize_positive("00000000000000000000000000000000000001"), Ok(1));
    assert_eq!(parse_usize_positive(&usize::MAX.to_string()), Ok(usize::MAX));
    for text in ["+", "-", "-0", "++1", "+-1", "1+", "٣", "４", "0x10", "1e3", "１２"] {
        assert!(parse_usize_positive(text).is_err());
    }
    let beyond = format!("{}0", usize::MAX);
    assert!(parse_usize_positive(&beyond).is_err());
}
