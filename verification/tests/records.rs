use payload_storage::callback::Callback;
use payload_storage::config::{Compression, StorageConfig};
use payload_storage::counter::HardwareCounterCell;
use payload_storage::error::{GridstoreError, OperationError};
use payload_storage::lz4::{compress_lz4, decompress_lz4, is_block, is_decompressible, is_dict_block};
use payload_storage::pages::Pages;
use payload_storage::payload::Payload;
use payload_storage::text::{read_object, write_object};
use payload_storage::tracker::{Slot, Tracker, ValuePointer};
use payload_storage::view::GridstoreView;
use std::ops::ControlFlow;

const CONFIG: StorageConfig = StorageConfig {
    page_size_bytes: 16,
    block_size_bytes: 4,
    compression: Compression::Uncompressed,
};

fn config_with(compression: Compression) -> StorageConfig {
    StorageConfig { page_size_bytes: 16, block_size_bytes: 4, compression }
}

fn view<'a>(
    config: &'a StorageConfig,
    tracker: &'a Tracker,
    pages: &'a Pages,
    dictionary: Option<&'a [u8]>,
) -> GridstoreView<'a, Payload> {
    GridstoreView::new(config, tracker, pages, dictionary)
}

fn pointer(page_id: u32, block_offset: u32, length: u32) -> ValuePointer {
    ValuePointer { page_id, block_offset, length }
}

/// Pages of 16 bytes that hold the texts one after the other, each at the start of a block, and
/// the slots that lead to them.
fn store(texts: &[Option<&str>]) -> (Tracker, Pages) {
    let mut bytes: Vec<u8> = Vec::new();
    let mut slots: Vec<Slot> = Vec::new();
    for text in texts {
        match text {
            Some(text) => {
                let at = bytes.len();
                slots.push(Ok(Some(pointer(
                    (at / 16) as u32,
                    (at % 16 / 4) as u32,
                    text.len() as u32,
                ))));
                bytes.extend_from_slice(text.as_bytes());
                while bytes.len() % 4 != 0 {
                    bytes.push(0);
                }
            }
            None => slots.push(Ok(None)),
        }
    }
    while bytes.len() % 16 != 0 {
        bytes.push(0);
    }
    let pages = bytes.chunks(16).map(|chunk| chunk.to_vec()).collect();
    (Tracker { slots }, Pages { pages })
}

fn written(payload: &Payload) -> String {
    String::from_utf8(write_object(&payload.0)).unwrap()
}

#[test]
fn block_has_its_size_in_front() {
    let value = b"some bytes, some bytes, some bytes, some bytes".to_vec();
    let block = compress_lz4(&value);
    assert_eq!(&block[..4], &(value.len() as u32).to_le_bytes());
    assert!(block.len() < value.len());
    assert_ne!(&block[4..], &value[..]);
    assert_eq!(lz4_flex::decompress_size_prepended(&block).unwrap(), value);
    assert!(is_block(&block));
}

#[test]
fn empty_value_is_compressed() {
    let block = compress_lz4(&[]);
    assert_eq!(&block[..4], &[0, 0, 0, 0]);
    assert!(block.len() > 4);
    assert_eq!(lz4_flex::decompress_size_prepended(&block).unwrap(), Vec::<u8>::new());
}

#[test]
fn long_values_are_compressed() {
    for len in [1usize, 12, 13, 65534, 65535, 65536, 300000] {
        let value: Vec<u8> = (0..len).map(|i| ((i * i) >> 3) as u8).collect();
        let block = compress_lz4(&value);
        assert!(block.len() <= 24 + len * 110 / 100);
        assert_eq!(lz4_flex::decompress_size_prepended(&block).unwrap(), value);
    }
}

#[test]
fn earlier_values_change_no_later_block() {
    let large: Vec<u8> = (0..200000).map(|i| (i / 7) as u8).collect();
    let value = b"a value, a value, a value, a value".to_vec();
    let first = compress_lz4(&value);
    compress_lz4(&large);
    let second = compress_lz4(&value);
    assert_eq!(decompress_lz4(&first), value);
    assert_eq!(decompress_lz4(&second), value);
    assert_eq!(decompress_lz4(&compress_lz4(&large)), large);
}

#[test]
fn empty_values_are_given_back() {
    let tracker = Tracker::new();
    let pages = Pages::new();
    for compression in [Compression::Uncompressed, Compression::LZ4, Compression::LZ4Dict] {
        let config = config_with(compression);
        let first = view(&config, &tracker, &pages, Some(b"dictionary"));
        let second = view(&config, &tracker, &pages, Some(b"dictionary"));
        assert_eq!(second.decompress(first.compress(Vec::new())), Vec::<u8>::new());
    }
}

#[test]
fn no_block_is_told_apart() {
    assert!(!is_block(&[]));
    assert!(!is_block(&[1, 2, 3]));
    assert!(!is_block(&[200, 0, 0, 0]));
    assert!(!is_block(&[1, 0, 0, 0, 0xf0]));
    assert!(!is_dict_block(&[9, 0, 0, 0, 0x0f, 1, 1], b"dictionary"));
    assert!(is_decompressible(&[255, 255, 255, 255, 0]));
}

#[test]
fn each_compression_gives_back_the_value() {
    let tracker = Tracker::new();
    let pages = Pages::new();
    let dictionary = br#"{"city":"","country":"","population":0}"#.to_vec();
    let value = br#"{"city":"Berlin","country":"Germany","population":3700000}"#.to_vec();
    for compression in [Compression::Uncompressed, Compression::LZ4, Compression::LZ4Dict] {
        let config = config_with(compression);
        let view = view(&config, &tracker, &pages, Some(&dictionary));
        let record = view.compress(value.clone());
        if compression == Compression::Uncompressed {
            assert_eq!(record, value);
        } else {
            assert_ne!(record, value);
            assert_eq!(&record[..4], &(value.len() as u32).to_le_bytes());
        }
        assert_eq!(view.checked_decompress(record), Some(value.clone()));
    }
}

#[test]
fn dictionary_makes_records_smaller() {
    let tracker = Tracker::new();
    let pages = Pages::new();
    let dictionary = br#"{"city":"","country":"","population":0,"timezone":""}"#.to_vec();
    let value = br#"{"city":"A","country":"B","population":1,"timezone":"C"}"#.to_vec();
    let plain_config = config_with(Compression::LZ4);
    let dict_config = config_with(Compression::LZ4Dict);
    let plain = view(&plain_config, &tracker, &pages, None).compress(value.clone());
    let with_dict = view(&dict_config, &tracker, &pages, Some(&dictionary)).compress(value.clone());
    assert!(with_dict.len() < plain.len());
}

#[test]
fn records_lean_on_their_dictionary() {
    let tracker = Tracker::new();
    let pages = Pages::new();
    let config = config_with(Compression::LZ4Dict);
    let dictionary = b"a fairly long piece of text that the value repeats".to_vec();
    let value = b"a fairly long piece of text that the value repeats!".to_vec();
    let record = view(&config, &tracker, &pages, Some(&dictionary)).compress(value.clone());
    let other = view(&config, &tracker, &pages, Some(b"short")).checked_decompress(record.clone());
    assert_ne!(other, Some(value.clone()));
    assert_eq!(view(&config, &tracker, &pages, None).checked_decompress(record.clone()), None);
    // A dictionary of fewer than four bytes is no help, and no harm.
    let tiny = view(&config, &tracker, &pages, Some(b"{}"));
    assert_eq!(tiny.checked_decompress(tiny.compress(value.clone())), Some(value));
}

#[test]
fn garbage_is_no_record() {
    let tracker = Tracker::new();
    let pages = Pages::new();
    let config = config_with(Compression::LZ4);
    assert_eq!(view(&config, &tracker, &pages, None).checked_decompress(vec![7, 0, 0, 0]), None);
    assert_eq!(
        view(&CONFIG, &tracker, &pages, None).checked_decompress(vec![7, 0]),
        Some(vec![7, 0])
    );
}

#[test]
fn records_span_pages() {
    let pages = Pages {
        pages: vec![(0..16).collect(), (16..32).collect(), (32..48).collect()],
    };
    let tracker = Tracker::new();
    let view = view(&CONFIG, &tracker, &pages, None);
    assert_eq!(view.read_from_pages::<false>(pointer(0, 1, 3)), Ok(vec![4, 5, 6]));
    assert_eq!(view.read_from_pages::<true>(pointer(0, 3, 6)), Ok((12..18).collect()));
    assert_eq!(view.read_from_pages::<true>(pointer(0, 2, 40)), Ok((8..48).collect()));
    assert_eq!(view.read_from_pages::<true>(pointer(2, 3, 4)), Ok(vec![44, 45, 46, 47]));
    assert_eq!(view.read_from_pages::<false>(pointer(3, 0, 0)), Ok(vec![]));
}

#[test]
fn records_beyond_the_pages_are_out_of_bounds() {
    let pages = Pages { pages: vec![(0..16).collect(), (16..32).collect()] };
    let tracker = Tracker::new();
    let view = view(&CONFIG, &tracker, &pages, None);
    assert_eq!(view.read_from_pages::<false>(pointer(2, 0, 1)), Err(GridstoreError::OutOfBounds));
    assert_eq!(view.read_from_pages::<false>(pointer(1, 3, 5)), Err(GridstoreError::OutOfBounds));
    assert_eq!(
        view.read_from_pages::<false>(pointer(u32::MAX, u32::MAX, 1)),
        Err(GridstoreError::OutOfBounds)
    );
}

#[test]
fn size_is_that_of_all_pages() {
    let (tracker, pages) = store(&[Some(r#"{"a":1}"#), None, Some(r#"{"b":"twenty"}"#)]);
    let view = view(&CONFIG, &tracker, &pages, None);
    assert_eq!(view.get_storage_size_bytes(), 32);
    assert_eq!(view.max_point_offset(), 3);
    assert_eq!(view.get_pointer(0), Ok(Some(pointer(0, 0, 7))));
    assert_eq!(view.get_pointer(1), Ok(None));
    assert_eq!(view.get_pointer(9), Ok(None));
}

#[test]
fn values_are_read_and_counted() {
    let (tracker, pages) = store(&[Some(r#"{"a":1}"#), None, Some(r#"{"b":"twenty"}"#)]);
    let view = view(&CONFIG, &tracker, &pages, None);
    let mut counter = HardwareCounterCell::new();
    let value = view.get_value::<false>(2, &mut counter).unwrap().unwrap();
    assert_eq!(written(&value), r#"{"b":"twenty"}"#);
    assert_eq!(counter.payload_io_read, 14);
    assert!(view.get_value::<true>(1, &mut counter).unwrap().is_none());
    assert!(view.get_value::<true>(7, &mut counter).unwrap().is_none());
    assert_eq!(counter.payload_io_read, 14);
    view.get_value::<true>(0, &mut counter).unwrap().unwrap();
    assert_eq!(counter.payload_io_read, 21);
    assert_eq!(counter.payload_io_write, 0);
}

#[test]
fn failures_to_read_a_value_are_returned() {
    let (mut tracker, pages) = store(&[Some(r#"{"a":1}"#)]);
    tracker.set(1, Err(GridstoreError::Io("bad sector".to_string())));
    tracker.set(2, Ok(Some(pointer(8, 0, 4))));
    let view = view(&CONFIG, &tracker, &pages, None);
    let mut counter = HardwareCounterCell::new();
    assert_eq!(
        view.get_value::<false>(1, &mut counter).unwrap_err(),
        GridstoreError::Io("bad sector".to_string())
    );
    assert_eq!(
        view.get_value::<false>(2, &mut counter).unwrap_err(),
        GridstoreError::OutOfBounds
    );
    assert_eq!(counter.payload_io_read, 0);
}

#[test]
fn compressed_values_are_read() {
    let config = config_with(Compression::LZ4);
    let text = r#"{"a":"aaaaaaaaaaaaaaaaaaaaaaaaaaaaaaaaaaaaaaaa"}"#;
    let block = compress_lz4(text.as_bytes());
    let mut pages = Pages::new();
    pages.write(0, &block, &config);
    let mut tracker = Tracker::new();
    tracker.set(4, Ok(Some(pointer(0, 0, block.len() as u32))));
    let mut counter = HardwareCounterCell::new();
    let value = view(&config, &tracker, &pages, None).get_value::<false>(4, &mut counter);
    assert_eq!(written(&value.unwrap().unwrap()), text);
    assert_eq!(counter.payload_io_read, block.len() as u64);
}

fn scan(
    view: &GridstoreView<'_, Payload>,
    from: u32,
    max: u32,
    max_iters: usize,
    stop_at: Option<u32>,
) -> (Vec<u32>, Result<ControlFlow<(), u32>, OperationError>, u64) {
    let mut seen = Vec::new();
    let mut counter = HardwareCounterCell::new();
    let result = view.iter(
        from,
        max,
        max_iters,
        |offset, _| {
            seen.push(offset);
            Ok(stop_at != Some(offset))
        },
        &mut counter,
    );
    (seen, result, counter.payload_io_read)
}

fn five() -> (Tracker, Pages) {
    store(&[Some(r#"{"a":1}"#), None, Some(r#"{"b":22}"#), Some("{}"), None, Some(r#"{"c":3}"#)])
}

#[test]
fn scan_visits_all_in_order() {
    let (tracker, pages) = five();
    let view = view(&CONFIG, &tracker, &pages, None);
    let (seen, result, read) = scan(&view, 0, 6, 100, None);
    assert_eq!(seen, vec![0, 2, 3, 5]);
    assert_eq!(result, Ok(ControlFlow::Break(())));
    assert_eq!(read, 7 + 8 + 2 + 7);
}

#[test]
fn scan_stops_after_max_iters() {
    let (tracker, pages) = five();
    let view = view(&CONFIG, &tracker, &pages, None);
    assert_eq!(
        scan(&view, 0, 6, 2, None),
        (vec![0, 2], Ok(ControlFlow::Continue(3)), 15)
    );
    // The last record ends the scan, although as many values were handed over as were asked for.
    assert_eq!(
        scan(&view, 0, 6, 4, None),
        (vec![0, 2, 3, 5], Ok(ControlFlow::Break(())), 24)
    );
    assert_eq!(scan(&view, 1, 6, 0, None), (vec![], Ok(ControlFlow::Continue(2)), 0));
    assert_eq!(scan(&view, 4, 5, 0, None), (vec![], Ok(ControlFlow::Break(())), 0));
}

#[test]
fn scan_continues_at_the_first_record_left_over() {
    let (tracker, pages) = five();
    let view = view(&CONFIG, &tracker, &pages, None);
    for from in 0..7 {
        let points: Vec<u32> = [0, 2, 3, 5].into_iter().filter(|point| *point >= from).collect();
        for max_iters in 0..6 {
            let (seen, result, _) = scan(&view, from, 6, max_iters, None);
            let expected = match points.get(max_iters) {
                Some(next) => ControlFlow::Continue(*next),
                None => ControlFlow::Break(()),
            };
            assert_eq!(result, Ok(expected));
            assert_eq!(seen, points[..points.len().min(max_iters)]);
        }
    }
}

#[test]
fn scan_is_resumed() {
    let (tracker, pages) = five();
    let view = view(&CONFIG, &tracker, &pages, None);
    let whole = scan(&view, 0, 6, 3, None);
    let (mut seen, first, read) = scan(&view, 0, 6, 1, None);
    assert_eq!(first, Ok(ControlFlow::Continue(2)));
    let (rest, second, read_after) = scan(&view, 2, 6, 2, None);
    seen.extend(rest);
    assert_eq!((seen, second, read + read_after), whole);
}

#[test]
fn callback_is_called_once_for_each_value() {
    let (tracker, pages) = five();
    let view = view(&CONFIG, &tracker, &pages, None);
    let mut counter = HardwareCounterCell::new();
    let mut seen: Vec<(u32, String)> = Vec::new();
    let mut visitor = Callback::new(|offset, value: Payload| -> Result<bool, OperationError> {
        seen.push((offset, written(&value)));
        Ok(offset < 3)
    });
    let first = view.scan(0, 6, 1, &mut visitor, &mut counter);
    assert_eq!(first, Ok(ControlFlow::Continue(2)));
    let second = view.scan(2, 6, 9, &mut visitor, &mut counter);
    assert_eq!(second, Ok(ControlFlow::Break(())));
    let expected = [(0, r#"{"a":1}"#), (2, r#"{"b":22}"#), (3, "{}")];
    assert_eq!(seen, expected.map(|(offset, text)| (offset, text.to_string())));
}

#[test]
fn callback_is_not_called_after_a_failure() {
    let (mut tracker, pages) = five();
    tracker.slots[3] = Ok(Some(pointer(9, 0, 2)));
    let view = view(&CONFIG, &tracker, &pages, None);
    let mut counter = HardwareCounterCell::new();
    let mut seen = Vec::new();
    let mut visitor = Callback::new(|offset, _: Payload| -> Result<bool, OperationError> {
        seen.push(offset);
        Ok(true)
    });
    let unread = view.scan(0, 6, 9, &mut visitor, &mut counter);
    assert_eq!(unread, Err(OperationError::Gridstore(GridstoreError::OutOfBounds)));
    assert_eq!(seen, [0, 2]);
    let mut calls = 0;
    let mut visitor = Callback::new(|_, _: Payload| -> Result<bool, OperationError> {
        calls += 1;
        Err(OperationError::Io("stop".to_string()))
    });
    let failed = view.scan(0, 6, 9, &mut visitor, &mut counter);
    assert_eq!(failed, Err(OperationError::Io("stop".to_string())));
    assert_eq!(calls, 1);
}

#[test]
fn scan_keeps_to_its_bounds() {
    let (tracker, pages) = five();
    let view = view(&CONFIG, &tracker, &pages, None);
    assert_eq!(scan(&view, 2, 5, 10, None).0, vec![2, 3]);
    assert_eq!(scan(&view, 3, 3, 10, None), (vec![], Ok(ControlFlow::Break(())), 0));
    assert_eq!(scan(&view, 5, 2, 10, None), (vec![], Ok(ControlFlow::Break(())), 0));
    assert_eq!(scan(&view, 0, 50, 10, None).0, vec![0, 2, 3, 5]);
}

#[test]
fn scan_ends_where_the_callback_says() {
    let (tracker, pages) = five();
    let view = view(&CONFIG, &tracker, &pages, None);
    assert_eq!(
        scan(&view, 0, 6, 10, Some(2)),
        (vec![0, 2], Ok(ControlFlow::Break(())), 15)
    );
}

#[test]
fn scan_fails_where_the_callback_fails() {
    let (tracker, pages) = five();
    let view = view(&CONFIG, &tracker, &pages, None);
    let mut counter = HardwareCounterCell::new();
    let result = view.iter(
        0,
        6,
        10,
        |offset, _| {
            if offset == 2 {
                Err(OperationError::service_error("enough"))
            } else {
                Ok(true)
            }
        },
        &mut counter,
    );
    assert_eq!(result, Err(OperationError::service_error("enough")));
    assert_eq!(counter.payload_io_read, 15);
}

#[test]
fn scan_skips_no_failure() {
    let (mut tracker, pages) = five();
    tracker.set(4, Err(GridstoreError::Io("lost".to_string())));
    let view = view(&CONFIG, &tracker, &pages, None);
    assert_eq!(
        scan(&view, 0, 6, 10, None),
        (
            vec![0, 2, 3],
            Err(OperationError::Gridstore(GridstoreError::Io("lost".to_string()))),
            17
        )
    );
    // The failure comes before the end of the allowance is noticed.
    assert_eq!(
        scan(&view, 0, 6, 3, None).1,
        Err(OperationError::Gridstore(GridstoreError::Io("lost".to_string())))
    );
    assert_eq!(scan(&view, 0, 4, 10, None).1, Ok(ControlFlow::Break(())));
}

#[test]
fn scan_fails_on_a_record_out_of_bounds() {
    let (mut tracker, pages) = five();
    tracker.set(1, Ok(Some(pointer(70, 0, 3))));
    let view = view(&CONFIG, &tracker, &pages, None);
    assert_eq!(
        scan(&view, 0, 6, 10, None),
        (vec![0], Err(OperationError::Gridstore(GridstoreError::OutOfBounds)), 7)
    );
}

#[test]
fn slots_are_set() {
    let mut tracker = Tracker::new();
    assert_eq!(tracker.pointer_count(), 0);
    tracker.set(2, Ok(Some(pointer(1, 2, 3))));
    assert_eq!(tracker.pointer_count(), 3);
    assert_eq!(tracker.get(0), Ok(None));
    assert_eq!(tracker.get(2), Ok(Some(pointer(1, 2, 3))));
    assert_eq!(tracker.get(3), Ok(None));
    tracker.set(2, Ok(None));
    assert_eq!(tracker.get(2), Ok(None));
    assert_eq!(tracker.pointer_count(), 3);
}

#[test]
fn counters_wrap() {
    let mut counter = HardwareCounterCell::new();
    counter.payload_io_read = u64::MAX;
    counter.incr_payload_io_read(3);
    counter.incr_payload_io_write(5);
    assert_eq!(counter.payload_io_read, 2);
    assert_eq!(counter.payload_io_write, 5);
}

#[test]
fn objects_are_compared_by_text() {
    let object = read_object(br#"{"b":1,"a":2}"#).unwrap();
    assert_eq!(String::from_utf8(write_object(&object)).unwrap(), r#"{"a":2,"b":1}"#);
}
