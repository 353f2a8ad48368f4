use payload_storage::callback::Callback;
use payload_storage::config::{Compression, StorageOptions};
use payload_storage::counter::HardwareCounterCell;
use payload_storage::error::{GridstoreError, OperationError};
use payload_storage::gridstore::Gridstore;
use payload_storage::json::{JsonObject, JsonValue};
use payload_storage::mmap_payload_storage::MmapPayloadStorage;
use payload_storage::open::OpenStep;
use payload_storage::pages::Pages;
use payload_storage::payload::Payload;
use payload_storage::text::{read_object, write_object, write_tree};
use payload_storage::tracker::{Tracker, ValuePointer};

fn payload(text: &str) -> Payload {
    Payload(read_object(text.as_bytes()).expect("an object"))
}

fn written(payload: &Payload) -> String {
    String::from_utf8(write_object(&payload.0)).unwrap()
}

fn small(compression: Compression) -> StorageOptions {
    StorageOptions {
        page_size_bytes: Some(64),
        block_size_bytes: Some(16),
        compression: Some(compression),
    }
}

fn on_store(store: Gridstore<Payload>) -> MmapPayloadStorage {
    match MmapPayloadStorage::open(Ok(store), false) {
        OpenStep::Opened { storage } => storage,
        other => panic!("{other:?}"),
    }
}

fn storage() -> MmapPayloadStorage {
    on_store(Gridstore::new(small(Compression::LZ4), None).unwrap())
}

fn get(storage: &MmapPayloadStorage, point_id: u32) -> String {
    let mut counter = HardwareCounterCell::new();
    written(&storage.get(point_id, &mut counter).unwrap())
}

fn overwrite(storage: &mut MmapPayloadStorage, point_id: u32, text: &str) {
    let mut counter = HardwareCounterCell::new();
    storage.overwrite(point_id, &payload(text), &mut counter).unwrap();
}

/// Merges the entries of one payload into another.
fn merge(mut into: Payload, from: &Payload) -> Payload {
    for (key, value) in payload(&written(from)).0.entries() {
        let text = format!("{{\"v\":{}}}", String::from_utf8(write_tree(value)).unwrap());
        let copy = payload(&text).0.remove(&"v".to_string()).unwrap();
        into.0.insert(key.clone(), copy);
    }
    into
}

/// Merges one payload into the object at a key of another.
fn merge_at(mut into: Payload, from: &Payload, key: &String) -> Payload {
    let inner = match into.0.remove(key) {
        Some(JsonValue::Object(object)) => Payload(object),
        _ => Payload::default(),
    };
    into.0.insert(key.clone(), JsonValue::Object(merge(inner, from).0));
    into
}

/// Takes the entry at a key away.
fn remove(mut from: Payload, key: &String) -> (Payload, Vec<JsonValue>) {
    let removed = from.0.remove(key).into_iter().collect();
    (from, removed)
}

/// A storage that holds bytes of no payload for point 0, and one payload for point 1.
fn broken() -> MmapPayloadStorage {
    let config = small(Compression::Uncompressed).into_config().unwrap();
    let mut pages = Pages::new();
    pages.write(0, b"not json", &config);
    pages.write(16, b"{\"a\":1}", &config);
    let mut tracker = Tracker::new();
    tracker.set(0, Ok(Some(ValuePointer { page_id: 0, block_offset: 0, length: 8 })));
    tracker.set(1, Ok(Some(ValuePointer { page_id: 0, block_offset: 1, length: 7 })));
    on_store(Gridstore::from_parts(config, tracker, pages, None).unwrap())
}

/// A storage whose point 1 could not be read.
fn unread() -> MmapPayloadStorage {
    let config = small(Compression::LZ4).into_config().unwrap();
    let mut tracker = Tracker::new();
    tracker.set(1, Err(GridstoreError::Io("lost".to_string())));
    on_store(Gridstore::from_parts(config, tracker, Pages::new(), None).unwrap())
}

fn lost() -> OperationError {
    OperationError::Gridstore(GridstoreError::Io("lost".to_string()))
}

#[test]
fn payload_is_read_back() {
    let mut storage = storage();
    overwrite(&mut storage, 4, r#"{"city":"Berlin","tags":["a","b"],"n":-5}"#);
    assert_eq!(get(&storage, 4), r#"{"city":"Berlin","n":-5,"tags":["a","b"]}"#);
    let mut counter = HardwareCounterCell::new();
    let sequential = storage.get_sequential(4, &mut counter).unwrap();
    assert_eq!(written(&sequential), get(&storage, 4));
    assert!(counter.payload_io_read > 0);
}

#[test]
fn payload_with_a_float_is_read_back() {
    let mut storage = storage();
    overwrite(&mut storage, 0, r#"{"ratio":0.5,"values":[-2.25,1e300]}"#);
    assert_eq!(get(&storage, 0), r#"{"ratio":0.5,"values":[-2.25,1e+300]}"#);
}

#[test]
fn point_without_payload_has_the_empty_one() {
    let storage = storage();
    let mut counter = HardwareCounterCell::new();
    assert_eq!(written(&storage.get(9, &mut counter).unwrap()), "{}");
    assert_eq!(written(&storage.get_sequential(9, &mut counter).unwrap()), "{}");
    assert_eq!(counter.payload_io_read, 0);
}

#[test]
fn overwriting_changes_no_other_point() {
    let mut storage = storage();
    overwrite(&mut storage, 0, r#"{"a":1}"#);
    overwrite(&mut storage, 2, r#"{"c":3}"#);
    overwrite(&mut storage, 0, r#"{"b":2}"#);
    assert_eq!(get(&storage, 0), r#"{"b":2}"#);
    assert_eq!(get(&storage, 1), "{}");
    assert_eq!(get(&storage, 2), r#"{"c":3}"#);
}

#[test]
fn refused_payload_changes_nothing() {
    let mut storage = storage();
    let mut counter = HardwareCounterCell::new();
    overwrite(&mut storage, 0, r#"{"a":1}"#);
    assert_eq!(
        storage.overwrite(u32::MAX, &payload("{}"), &mut counter),
        Err(OperationError::Gridstore(GridstoreError::OutOfSpace))
    );
    assert_eq!(
        storage.set(u32::MAX, &payload("{}"), merge, &mut counter),
        Err(OperationError::Gridstore(GridstoreError::OutOfSpace))
    );
    assert_eq!(counter.payload_io_write, 0);
    assert_eq!(get(&storage, 0), r#"{"a":1}"#);
    assert_eq!(get(&storage, u32::MAX), "{}");
}

#[test]
fn set_merges_into_the_payload() {
    let mut storage = storage();
    let mut counter = HardwareCounterCell::new();
    overwrite(&mut storage, 1, r#"{"a":1,"b":2}"#);
    storage.set(1, &payload(r#"{"b":3,"c":4}"#), merge, &mut counter).unwrap();
    assert_eq!(get(&storage, 1), r#"{"a":1,"b":3,"c":4}"#);
    assert!(counter.payload_io_read > 0);
    assert!(counter.payload_io_write > 0);
}

#[test]
fn set_without_payload_stores_it() {
    let mut storage = storage();
    let mut counter = HardwareCounterCell::new();
    storage
        .set(1, &payload(r#"{"b":3}"#), |_, _| Payload::default(), &mut counter)
        .unwrap();
    assert_eq!(get(&storage, 1), r#"{"b":3}"#);
    assert_eq!(counter.payload_io_read, 0);
}

#[test]
fn set_by_key_merges_at_the_key() {
    let mut storage = storage();
    let mut counter = HardwareCounterCell::new();
    let key = "inner".to_string();
    storage.set_by_key(1, &payload(r#"{"x":1}"#), &key, merge_at, &mut counter).unwrap();
    assert_eq!(get(&storage, 1), r#"{"inner":{"x":1}}"#);
    storage.set_by_key(1, &payload(r#"{"y":2}"#), &key, merge_at, &mut counter).unwrap();
    assert_eq!(get(&storage, 1), r#"{"inner":{"x":1,"y":2}}"#);
}

#[test]
fn delete_returns_what_stood_at_the_key() {
    let mut storage = storage();
    let mut counter = HardwareCounterCell::new();
    overwrite(&mut storage, 1, r#"{"a":[1,2],"b":2}"#);
    let removed = storage.delete(1, &"a".to_string(), remove, &mut counter).unwrap();
    assert_eq!(removed.len(), 1);
    assert_eq!(write_tree(&removed[0]), b"[1,2]");
    assert_eq!(get(&storage, 1), r#"{"b":2}"#);
    assert!(counter.payload_io_write > 0);
}

#[test]
fn delete_of_nothing_writes_nothing() {
    let mut storage = storage();
    let mut counter = HardwareCounterCell::new();
    overwrite(&mut storage, 1, r#"{"b":2}"#);
    let size = storage.get_storage_size_bytes().unwrap();
    assert!(storage.delete(1, &"a".to_string(), remove, &mut counter).unwrap().is_empty());
    assert!(storage.delete(5, &"a".to_string(), remove, &mut counter).unwrap().is_empty());
    assert_eq!(counter.payload_io_write, 0);
    assert_eq!(get(&storage, 1), r#"{"b":2}"#);
    assert_eq!(storage.get_storage_size_bytes(), Ok(size));
}

#[test]
fn cleared_point_is_empty() {
    let mut storage = storage();
    let counter = HardwareCounterCell::new();
    overwrite(&mut storage, 1, r#"{"a":1}"#);
    overwrite(&mut storage, 2, r#"{"b":2}"#);
    let cleared = storage.clear(1, &counter).unwrap().unwrap();
    assert_eq!(written(&cleared), r#"{"a":1}"#);
    assert_eq!(get(&storage, 1), "{}");
    assert_eq!(get(&storage, 2), r#"{"b":2}"#);
    assert!(storage.clear(1, &counter).unwrap().is_none());
}

#[test]
fn clear_all_takes_everything() {
    let mut storage = storage();
    overwrite(&mut storage, 1, r#"{"a":1}"#);
    let refused = storage.clear_all(Err(GridstoreError::Io("busy".to_string())));
    assert_eq!(
        refused,
        Err(OperationError::service_error("Failed to clear mmap payload storage: busy"))
    );
    assert_eq!(get(&storage, 1), r#"{"a":1}"#);
    assert_eq!(storage.clear_all(Ok(())), Ok(()));
    assert_eq!(get(&storage, 1), "{}");
    assert_eq!(storage.get_storage_size_bytes(), Ok(0));
}

#[test]
fn work_on_disk_is_handed_on() {
    let storage = storage();
    let busy = || Err(GridstoreError::Io("busy".to_string()));
    let handed = Err(OperationError::Gridstore(GridstoreError::Io("busy".to_string())));
    assert_eq!(storage.populate(Ok(())), Ok(()));
    assert_eq!(storage.populate(busy()), handed);
    assert_eq!(storage.clear_cache(Ok(())), Ok(()));
    assert_eq!(storage.clear_cache(busy()), handed);
    assert_eq!(MmapPayloadStorage::flushed(Ok(())), Ok(()));
    assert_eq!(
        MmapPayloadStorage::flushed(busy()),
        Err(OperationError::service_error("Failed to flush mmap payload gridstore: busy"))
    );
}

#[test]
fn storage_in_memory_is_not_on_disk() {
    let store = || Gridstore::new(small(Compression::LZ4), None).unwrap();
    assert!(on_store(store()).is_on_disk());
    match MmapPayloadStorage::open(Ok(store()), true) {
        OpenStep::Populate { storage } => assert!(!storage.is_on_disk()),
        other => panic!("{other:?}"),
    }
}

#[test]
fn iteration_visits_every_payload() {
    let mut storage = storage();
    for point_id in [3u32, 1, 7] {
        overwrite(&mut storage, point_id, &format!(r#"{{"id":{point_id}}}"#));
    }
    let mut seen = Vec::new();
    let mut counter = HardwareCounterCell::new();
    let result = storage.iter(
        |point_id, payload| {
            seen.push((point_id, written(&payload)));
            Ok(point_id < 3)
        },
        &mut counter,
    );
    assert_eq!(result, Ok(()));
    assert_eq!(seen, vec![(1, r#"{"id":1}"#.to_string()), (3, r#"{"id":3}"#.to_string())]);
    let failed = storage.iter(|_, _| Err(OperationError::Io("stop".to_string())), &mut counter);
    assert_eq!(failed, Err(OperationError::Io("stop".to_string())));
}

#[test]
fn walk_hands_over_each_payload_once() {
    let mut storage = storage();
    for point_id in [3u32, 1, 7] {
        overwrite(&mut storage, point_id, &format!(r#"{{"id":{point_id}}}"#));
    }
    let mut counter = HardwareCounterCell::new();
    let mut seen: Vec<(u32, String)> = Vec::new();
    let mut visitor = Callback::new(|point_id, payload: Payload| {
        seen.push((point_id, written(&payload)));
        Ok(true)
    });
    assert_eq!(storage.scan(&mut visitor, &mut counter), Ok(()));
    assert_eq!(storage.checked_scan(&mut visitor, &mut counter), Some(Ok(())));
    let once: Vec<(u32, String)> =
        [1, 3, 7].into_iter().map(|point_id| (point_id, get(&storage, point_id))).collect();
    assert_eq!(seen, [once.clone(), once].concat());
}

#[test]
fn unread_point_fails_every_operation() {
    let mut storage = unread();
    let mut counter = HardwareCounterCell::new();
    let key = "a".to_string();
    let one = payload(r#"{"a":1}"#);
    assert_eq!(storage.get(1, &mut counter).unwrap_err(), lost());
    assert_eq!(storage.get_sequential(1, &mut counter).unwrap_err(), lost());
    assert_eq!(storage.set(1, &one, merge, &mut counter).unwrap_err(), lost());
    assert_eq!(storage.set_by_key(1, &one, &key, merge_at, &mut counter).unwrap_err(), lost());
    assert_eq!(storage.delete(1, &key, remove, &mut counter).unwrap_err(), lost());
    assert_eq!(storage.clear(1, &counter).unwrap_err(), lost());
    assert_eq!(storage.iter(|_, _| Ok(true), &mut counter).unwrap_err(), lost());
    assert_eq!(counter.payload_io_read, 0);
    overwrite(&mut storage, 1, r#"{"a":1}"#);
    assert_eq!(get(&storage, 1), r#"{"a":1}"#);
}

#[test]
fn bytes_of_no_payload_are_left_alone() {
    let mut storage = broken();
    let mut counter = HardwareCounterCell::new();
    let key = "a".to_string();
    let one = payload(r#"{"a":1}"#);
    assert!(storage.checked_get(0, &mut counter).is_none());
    assert!(storage.checked_get_sequential(0, &mut counter).is_none());
    assert!(storage.checked_set(0, &one, merge, &mut counter).is_none());
    assert!(storage.checked_set_by_key(0, &one, &key, merge_at, &mut counter).is_none());
    assert!(storage.checked_delete(0, &key, remove, &mut counter).is_none());
    assert!(storage.checked_clear(0, &counter).is_none());
    assert!(storage.checked_iter(|_, _| Ok(true), &mut counter).is_none());
    assert_eq!(counter.payload_io_read, 0);
    assert_eq!(counter.payload_io_write, 0);
}

#[test]
fn checked_operations_do_what_the_others_do() {
    let mut storage = broken();
    let mut counter = HardwareCounterCell::new();
    let key = "b".to_string();
    let read = storage.checked_get(1, &mut counter).unwrap().unwrap();
    assert_eq!(written(&read), r#"{"a":1}"#);
    let read = storage.checked_get_sequential(1, &mut counter).unwrap().unwrap();
    assert_eq!(written(&read), r#"{"a":1}"#);
    let more = payload(r#"{"c":{"d":1}}"#);
    storage.checked_set(1, &more, merge, &mut counter).unwrap().unwrap();
    storage.checked_set_by_key(1, &more, &key, merge_at, &mut counter).unwrap().unwrap();
    assert_eq!(get(&storage, 1), r#"{"a":1,"b":{"c":{"d":1}},"c":{"d":1}}"#);
    let removed = storage.checked_delete(1, &key, remove, &mut counter).unwrap().unwrap();
    assert_eq!(write_tree(&removed[0]), br#"{"c":{"d":1}}"#);
    let cleared = storage.checked_clear(1, &counter).unwrap().unwrap().unwrap();
    assert_eq!(written(&cleared), r#"{"a":1,"c":{"d":1}}"#);
    overwrite(&mut storage, 0, r#"{"z":0}"#);
    let mut seen = 0;
    let visit = |_, _| {
        seen += 1;
        Ok(true)
    };
    storage.checked_iter(visit, &mut counter).unwrap().unwrap();
    assert_eq!(seen, 1);
}

fn nested_payload(depth: usize) -> Payload {
    let mut value = JsonValue::Bool(true);
    for _ in 1..depth {
        value = JsonValue::Array(vec![value]);
    }
    let mut object = JsonObject::new();
    object.insert("deep".to_string(), value);
    Payload(object)
}

#[test]
fn payload_that_is_nested_too_deep_is_not_read_back() {
    let mut storage = storage();
    let mut counter = HardwareCounterCell::new();
    let fits = nested_payload(127);
    assert!(fits.is_legible());
    assert!(fits.is_exact());
    storage.overwrite(0, &fits, &mut counter).unwrap();
    assert_eq!(get(&storage, 0), written(&fits));
    let deeper = nested_payload(128);
    assert!(!deeper.is_legible());
    assert!(!deeper.is_exact());
    storage.overwrite(1, &deeper, &mut counter).unwrap();
    assert!(storage.checked_get(1, &mut counter).is_none());
}

#[test]
fn exactness_of_payloads() {
    assert!(payload(r#"{"a":[1,"x",null,{"b":-3}]}"#).is_exact());
    let floats = payload(r#"{"a":0.5}"#);
    assert!(floats.is_legible());
    assert!(!floats.is_exact());
    let mut storage = storage();
    overwrite(&mut storage, 0, r#"{"a":0.5}"#);
    assert_eq!(get(&storage, 0), r#"{"a":0.5}"#);
}

#[test]
fn size_grows_by_pages() {
    let mut storage = on_store(Gridstore::new(small(Compression::Uncompressed), None).unwrap());
    assert_eq!(storage.get_storage_size_bytes(), Ok(0));
    overwrite(&mut storage, 0, r#"{"a":1}"#);
    assert_eq!(storage.get_storage_size_bytes(), Ok(64));
    overwrite(&mut storage, 1, &format!(r#"{{"a":"{}"}}"#, "x".repeat(60)));
    assert_eq!(storage.get_storage_size_bytes(), Ok(128));
}

/// A storage with two payloads, bytes of no payload behind them, and another payload.
fn broken_behind() -> MmapPayloadStorage {
    let config = small(Compression::Uncompressed).into_config().unwrap();
    let mut pages = Pages::new();
    let mut tracker = Tracker::new();
    for (i, text) in ["{\"a\":1}", "{\"b\":2}", "not json", "{\"c\":3}"].iter().enumerate() {
        pages.write(i as u64 * 16, text.as_bytes(), &config);
        let pointer =
            ValuePointer { page_id: 0, block_offset: i as u32, length: text.len() as u32 };
        tracker.set(i as u32 * 2, Ok(Some(pointer)));
    }
    on_store(Gridstore::from_parts(config, tracker, pages, None).unwrap())
}

#[test]
fn checked_iteration_stops_only_where_it_comes_to_no_payload() {
    let storage = broken_behind();
    let mut counter = HardwareCounterCell::new();
    let mut seen = Vec::new();
    let ended = storage.checked_iter(
        |point_id, _| {
            seen.push(point_id);
            Ok(point_id < 2)
        },
        &mut counter,
    );
    assert_eq!(ended, Some(Ok(())));
    assert_eq!(seen, vec![0, 2]);
    assert_eq!(counter.payload_io_read, 14);

    let failed = storage.checked_iter(|_, _| Err(OperationError::Io("stop".to_string())), &mut counter);
    assert_eq!(failed, Some(Err(OperationError::Io("stop".to_string()))));
    assert_eq!(counter.payload_io_read, 21);

    let mut seen = Vec::new();
    let stuck = storage.checked_iter(
        |point_id, _| {
            seen.push(point_id);
            Ok(true)
        },
        &mut counter,
    );
    assert_eq!(stuck, None);
    assert_eq!(seen, vec![0, 2]);
    assert_eq!(counter.payload_io_read, 35);
}

#[test]
fn checked_iteration_fails_in_front_of_no_payload() {
    let (config, tracker, pages, _) = {
        let broken = broken_behind();
        let (config, tracker, pages, dictionary) = broken.storage().parts();
        let slots = (0..tracker.pointer_count()).map(|i| tracker.get(i)).collect();
        (config, Tracker { slots }, Pages { pages: pages.pages.clone() }, dictionary.is_some())
    };
    let mut tracker = tracker;
    tracker.set(1, Err(GridstoreError::Io("lost".to_string())));
    let storage = on_store(Gridstore::from_parts(config, tracker, pages, None).unwrap());
    let mut counter = HardwareCounterCell::new();
    assert_eq!(storage.checked_iter(|_, _| Ok(true), &mut counter), Some(Err(lost())));
    assert_eq!(counter.payload_io_read, 7);
}
