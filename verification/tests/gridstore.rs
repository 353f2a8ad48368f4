use payload_storage::config::{Compression, StorageConfig, StorageOptions};
use payload_storage::counter::HardwareCounterCell;
use payload_storage::error::{GridstoreError, OperationError};
use payload_storage::gridstore::Gridstore;
use payload_storage::pages::Pages;
use payload_storage::payload::Payload;
use payload_storage::text::{read_object, write_object};
use payload_storage::tracker::{Tracker, ValuePointer};

fn payload(text: &str) -> Payload {
    Payload(read_object(text.as_bytes()).expect("an object"))
}

fn written(payload: &Payload) -> String {
    String::from_utf8(write_object(&payload.0)).unwrap()
}

fn options(page: usize, block: usize, compression: Compression) -> StorageOptions {
    StorageOptions {
        page_size_bytes: Some(page),
        block_size_bytes: Some(block),
        compression: Some(compression),
    }
}

fn plain() -> Gridstore<Payload> {
    Gridstore::new(options(64, 16, Compression::Uncompressed), None).unwrap()
}

fn read(store: &Gridstore<Payload>, offset: u32) -> Option<String> {
    let mut counter = HardwareCounterCell::new();
    store.get_value::<false>(offset, &mut counter).unwrap().map(|p| written(&p))
}

fn put(store: &mut Gridstore<Payload>, offset: u32, text: &str) -> u64 {
    let mut counter = HardwareCounterCell::new();
    store.put_value(offset, &payload(text), &mut counter).unwrap();
    counter.payload_io_write
}

#[test]
fn default_options() {
    let config = StorageOptions::default().into_config().unwrap();
    assert_eq!(config.page_size_bytes, 32 * 1024 * 1024);
    assert_eq!(config.block_size_bytes, 128);
    assert_eq!(config.compression, Compression::LZ4);
}

#[test]
fn sizes_must_fit_together() {
    for (page, block) in [(64, 0), (16, 64), (0, 0), (100, 16), (1 << 32, 1)] {
        assert_eq!(
            options(page, block, Compression::LZ4).into_config().unwrap_err(),
            GridstoreError::InvalidConfig
        );
        assert_eq!(
            Gridstore::<Payload>::new(options(page, block, Compression::LZ4), None).unwrap_err(),
            GridstoreError::InvalidConfig
        );
    }
}

#[test]
fn large_pages_are_allowed() {
    let config = options(1 << 33, 16, Compression::LZ4).into_config().unwrap();
    assert!(config.is_valid());
    assert_eq!(config.page_size_bytes, 1 << 33);
}

#[test]
fn dictionary_must_be_there() {
    assert_eq!(
        Gridstore::<Payload>::new(options(64, 16, Compression::LZ4Dict), None).unwrap_err(),
        GridstoreError::MissingDictionary
    );
    let store =
        Gridstore::<Payload>::new(options(64, 16, Compression::LZ4Dict), Some(b"{}".to_vec())).unwrap();
    assert_eq!(store.compression(), Compression::LZ4Dict);
}

#[test]
fn stored_values_are_read_back() {
    for compression in [Compression::Uncompressed, Compression::LZ4, Compression::LZ4Dict] {
        let dictionary = br#"{"name":"","tags":[""]}"#.to_vec();
        let mut store =
            Gridstore::<Payload>::new(options(64, 16, compression), Some(dictionary)).unwrap();
        let texts: Vec<String> =
            (0..20).map(|i| format!(r#"{{"name":"point {i}","tags":["{}"]}}"#, "x".repeat(i * 7))).collect();
        for (i, text) in texts.iter().enumerate() {
            put(&mut store, i as u32 * 2, text);
        }
        for (i, text) in texts.iter().enumerate() {
            assert_eq!(read(&store, i as u32 * 2).as_deref(), Some(text.as_str()));
            assert_eq!(read(&store, i as u32 * 2 + 1), None);
        }
        assert_eq!(store.max_point_offset(), 39);
    }
}

#[test]
fn room_is_taken_by_the_record() {
    let text = format!(r#"{{"text":"{}"}}"#, "x".repeat(1 << 20));
    let mut store = Gridstore::<Payload>::new(options(1 << 13, 16, Compression::LZ4), None).unwrap();
    let taken = put(&mut store, 0, &text);
    assert!(taken < 1 << 13);
    assert_eq!(store.get_storage_size_bytes(), 1 << 13);
    assert_eq!(read(&store, 0), Some(text));
}

#[test]
fn records_start_at_blocks() {
    let mut store = plain();
    assert_eq!(store.get_storage_size_bytes(), 0);
    assert_eq!(put(&mut store, 0, r#"{"a":1}"#), 7);
    assert_eq!(put(&mut store, 1, r#"{"abcdefghij":12}"#), 17);
    assert_eq!(store.get_storage_size_bytes(), 64);
    assert_eq!(put(&mut store, 2, "{}"), 2);
    assert_eq!(store.get_storage_size_bytes(), 64);
    let (_, tracker, _, _) = store.parts();
    assert_eq!(tracker.get(0), Ok(Some(ValuePointer { page_id: 0, block_offset: 0, length: 7 })));
    assert_eq!(tracker.get(1), Ok(Some(ValuePointer { page_id: 0, block_offset: 1, length: 17 })));
    assert_eq!(tracker.get(2), Ok(Some(ValuePointer { page_id: 0, block_offset: 3, length: 2 })));
    assert_eq!(put(&mut store, 3, r#"{"k":"0123456789"}"#), 18);
    assert_eq!(store.get_storage_size_bytes(), 128);
    assert_eq!(read(&store, 3).as_deref(), Some(r#"{"k":"0123456789"}"#));
}

#[test]
fn records_reach_over_pages() {
    let mut store = plain();
    let long = format!(r#"{{"k":"{}"}}"#, "z".repeat(300));
    put(&mut store, 0, r#"{"a":1}"#);
    put(&mut store, 1, &long);
    put(&mut store, 2, r#"{"b":2}"#);
    assert_eq!(store.get_storage_size_bytes(), 384);
    assert_eq!(read(&store, 0).as_deref(), Some(r#"{"a":1}"#));
    assert_eq!(read(&store, 1), Some(long));
    assert_eq!(read(&store, 2).as_deref(), Some(r#"{"b":2}"#));
}

#[test]
fn later_value_takes_the_place() {
    let mut store = plain();
    put(&mut store, 5, r#"{"a":1}"#);
    put(&mut store, 6, r#"{"c":3}"#);
    put(&mut store, 5, r#"{"b":2}"#);
    assert_eq!(read(&store, 5).as_deref(), Some(r#"{"b":2}"#));
    assert_eq!(read(&store, 6).as_deref(), Some(r#"{"c":3}"#));
    assert_eq!(store.max_point_offset(), 7);
}

#[test]
fn deleted_value_is_returned() {
    let mut store = plain();
    put(&mut store, 1, r#"{"a":1}"#);
    put(&mut store, 2, r#"{"b":2}"#);
    let deleted = store.delete_value(1).unwrap().unwrap();
    assert_eq!(written(&deleted), r#"{"a":1}"#);
    assert_eq!(read(&store, 1), None);
    assert_eq!(read(&store, 2).as_deref(), Some(r#"{"b":2}"#));
    assert!(store.delete_value(1).unwrap().is_none());
    assert!(store.delete_value(77).unwrap().is_none());
    assert_eq!(store.max_point_offset(), 3);
}

#[test]
fn last_point_is_refused() {
    let mut store = plain();
    let mut counter = HardwareCounterCell::new();
    assert_eq!(
        store.put_value(u32::MAX, &payload("{}"), &mut counter),
        Err(GridstoreError::OutOfSpace)
    );
    assert_eq!(store.max_point_offset(), 0);
    assert_eq!(counter.payload_io_write, 0);
}

#[test]
fn cleared_store_is_empty() {
    let mut store = plain();
    put(&mut store, 3, r#"{"a":1}"#);
    store.clear();
    assert_eq!(store.max_point_offset(), 0);
    assert_eq!(store.get_storage_size_bytes(), 0);
    assert_eq!(read(&store, 3), None);
    put(&mut store, 3, r#"{"b":2}"#);
    assert_eq!(read(&store, 3).as_deref(), Some(r#"{"b":2}"#));
}

fn copies(store: &Gridstore<Payload>) -> (StorageConfig, Tracker, Pages, Option<Vec<u8>>) {
    let (config, tracker, pages, dictionary) = store.parts();
    let slots = (0..tracker.pointer_count()).map(|i| tracker.get(i)).collect();
    (
        config,
        Tracker { slots },
        Pages { pages: pages.pages.clone() },
        dictionary.map(|dictionary| dictionary.to_vec()),
    )
}

#[test]
fn parts_are_put_together_again() {
    for compression in [Compression::Uncompressed, Compression::LZ4, Compression::LZ4Dict] {
        let mut store =
            Gridstore::<Payload>::new(options(64, 16, compression), Some(b"{\"a\":0}".to_vec())).unwrap();
        put(&mut store, 0, r#"{"a":1}"#);
        put(&mut store, 4, r#"{"a":"a longer text that repeats: text that repeats"}"#);
        let (config, tracker, pages, dictionary) = copies(&store);
        let mut again = Gridstore::<Payload>::from_parts(config, tracker, pages, dictionary).unwrap();
        assert_eq!(read(&again, 0), read(&store, 0));
        assert_eq!(read(&again, 4), read(&store, 4));
        assert_eq!(again.max_point_offset(), 5);
        assert_eq!(again.compression(), compression);
        assert_eq!(again.get_storage_size_bytes(), store.get_storage_size_bytes());
        put(&mut again, 2, r#"{"n":7}"#);
        assert_eq!(read(&again, 0), read(&store, 0));
        assert_eq!(read(&again, 4), read(&store, 4));
        assert_eq!(read(&again, 2).as_deref(), Some(r#"{"n":7}"#));
    }
}

#[test]
fn parts_of_no_store_are_refused() {
    let mut store = Gridstore::<Payload>::new(options(64, 16, Compression::LZ4), None).unwrap();
    put(&mut store, 0, r#"{"a":1}"#);

    let (mut config, tracker, pages, dictionary) = copies(&store);
    config.block_size_bytes = 48;
    assert_eq!(
        Gridstore::<Payload>::from_parts(config, tracker, pages, dictionary).unwrap_err(),
        GridstoreError::InvalidConfig
    );

    let (mut config, tracker, pages, dictionary) = copies(&store);
    config.compression = Compression::LZ4Dict;
    assert_eq!(
        Gridstore::<Payload>::from_parts(config, tracker, pages, dictionary).unwrap_err(),
        GridstoreError::MissingDictionary
    );

    let (config, tracker, mut pages, dictionary) = copies(&store);
    pages.pages[0].pop();
    assert_eq!(
        Gridstore::<Payload>::from_parts(config, tracker, pages, dictionary).unwrap_err(),
        GridstoreError::Corrupted
    );

    let (config, mut tracker, pages, dictionary) = copies(&store);
    tracker.set(3, Ok(Some(ValuePointer { page_id: 0, block_offset: 3, length: 17 })));
    assert_eq!(
        Gridstore::<Payload>::from_parts(config, tracker, pages, dictionary).unwrap_err(),
        GridstoreError::Corrupted
    );

    let (config, tracker, mut pages, dictionary) = copies(&store);
    pages.pages[0][4] = 0x0f;
    assert_eq!(
        Gridstore::<Payload>::from_parts(config, tracker, pages, dictionary).unwrap_err(),
        GridstoreError::Corrupted
    );
}

#[test]
fn unread_slots_are_kept() {
    let mut store = plain();
    put(&mut store, 0, r#"{"a":1}"#);
    put(&mut store, 2, r#"{"c":3}"#);
    let (config, mut tracker, pages, dictionary) = copies(&store);
    tracker.set(1, Err(GridstoreError::Io("lost".to_string())));
    let mut store = Gridstore::<Payload>::from_parts(config, tracker, pages, dictionary).unwrap();
    let mut counter = HardwareCounterCell::new();
    assert!(store.is_unread(1));
    assert!(!store.is_unread(0));
    assert_eq!(
        store.get_value::<true>(1, &mut counter).unwrap_err(),
        GridstoreError::Io("lost".to_string())
    );
    assert_eq!(
        store.delete_value(1).unwrap_err(),
        GridstoreError::Io("lost".to_string())
    );
    let mut seen = Vec::new();
    let result: Result<(), OperationError> = store.iter(
        |offset, _| {
            seen.push(offset);
            Ok(true)
        },
        &mut counter,
    );
    assert_eq!(seen, vec![0]);
    assert_eq!(
        result,
        Err(OperationError::Gridstore(GridstoreError::Io("lost".to_string())))
    );
    put(&mut store, 1, r#"{"b":2}"#);
    assert_eq!(read(&store, 1).as_deref(), Some(r#"{"b":2}"#));
}

#[test]
fn bytes_of_no_payload_are_told_apart() {
    let mut pages = Pages::new();
    let config = options(64, 16, Compression::Uncompressed).into_config().unwrap();
    pages.write(0, b"not json", &config);
    let mut tracker = Tracker::new();
    tracker.set(0, Ok(Some(ValuePointer { page_id: 0, block_offset: 0, length: 8 })));
    let store = Gridstore::<Payload>::from_parts(config, tracker, pages, None).unwrap();
    assert!(!store.is_readable(0));
    assert!(store.is_readable(1));
}

#[test]
fn iteration_visits_every_value() {
    let mut store = plain();
    for i in [4u32, 0, 2] {
        put(&mut store, i, &format!(r#"{{"i":{i}}}"#));
    }
    let mut seen = Vec::new();
    let mut counter = HardwareCounterCell::new();
    let result: Result<(), OperationError> = store.iter(
        |offset, value| {
            seen.push((offset, written(&value)));
            Ok(true)
        },
        &mut counter,
    );
    assert_eq!(result, Ok(()));
    assert_eq!(counter.payload_io_read, 21);
    assert_eq!(
        seen,
        vec![
            (0, r#"{"i":0}"#.to_string()),
            (2, r#"{"i":2}"#.to_string()),
            (4, r#"{"i":4}"#.to_string())
        ]
    );
}

#[test]
fn errors_have_texts() {
    for (error, text) in [
        (GridstoreError::OutOfBounds, "pointer out of bounds"),
        (GridstoreError::ValueTooLarge, "value too large"),
        (GridstoreError::OutOfSpace, "out of space"),
        (GridstoreError::InvalidConfig, "invalid configuration"),
        (GridstoreError::MissingDictionary, "missing dictionary"),
        (GridstoreError::Corrupted, "corrupted storage"),
        (GridstoreError::Io("disk".to_string()), "disk"),
    ] {
        assert_eq!(error.description(), text);
        assert_eq!(error.duplicate(), error);
    }
}
