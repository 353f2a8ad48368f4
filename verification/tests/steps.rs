use payload_storage::config::{Compression, StorageOptions};
use payload_storage::counter::HardwareCounterCell;
use payload_storage::error::{GridstoreError, OperationError};
use payload_storage::gridstore::Gridstore;
use payload_storage::mmap_payload_storage::MmapPayloadStorage;
use payload_storage::open::OpenStep;
use payload_storage::optimize::{new_options, OptimizeStep};
use payload_storage::pages::Pages;
use payload_storage::paths::{old_dir, parent_dir, storage_dir};
use payload_storage::payload::Payload;
use payload_storage::steps::Outcome;
use payload_storage::text::{read_object, write_object};
use payload_storage::tracker::{Tracker, ValuePointer};
use rand::rngs::StdRng;
use rand::SeedableRng;
use std::path::PathBuf;

fn payload(text: &str) -> Payload {
    Payload(read_object(text.as_bytes()).expect("an object"))
}

fn options(compression: Compression) -> StorageOptions {
    StorageOptions {
        page_size_bytes: Some(4096),
        block_size_bytes: Some(16),
        compression: Some(compression),
    }
}

fn storage(compression: Compression, populate: bool) -> MmapPayloadStorage {
    let store = Gridstore::new(options(compression), Some(b"{}".to_vec())).unwrap();
    match MmapPayloadStorage::open(Ok(store), populate) {
        OpenStep::Opened { storage } | OpenStep::Populate { storage } => storage,
        other => panic!("{other:?}"),
    }
}

fn overwrite(storage: &mut MmapPayloadStorage, point_id: u32, text: &str) {
    let mut counter = HardwareCounterCell::new();
    storage.overwrite(point_id, &payload(text), &mut counter).unwrap();
}

fn get(storage: &MmapPayloadStorage, point_id: u32) -> String {
    let mut counter = HardwareCounterCell::new();
    let read = storage.get(point_id, &mut counter).unwrap();
    String::from_utf8(write_object(&read.0)).unwrap()
}

fn copy(store: &Gridstore<Payload>) -> Gridstore<Payload> {
    let (config, tracker, pages, dictionary) = store.parts();
    let slots = (0..tracker.pointer_count()).map(|i| tracker.get(i)).collect();
    let dictionary = dictionary.map(|dictionary| dictionary.to_vec());
    Gridstore::from_parts(config, Tracker { slots }, Pages { pages: pages.pages.clone() }, dictionary)
        .unwrap()
}

fn io() -> Outcome {
    Outcome::File(Err("disk full".to_string()))
}

fn refused() -> Outcome {
    Outcome::Store(Err(GridstoreError::Io("disk full".to_string())))
}

fn failed(step: OptimizeStep) -> OperationError {
    match step {
        OptimizeStep::Failed(error) => error,
        other => panic!("{other:?}"),
    }
}

fn open_failed(step: OpenStep) -> OperationError {
    match step {
        OpenStep::Failed(error) => error,
        other => panic!("{other:?}"),
    }
}

#[test]
fn directory_of_the_storage() {
    assert_eq!(
        storage_dir(&PathBuf::from("/data/segment")),
        PathBuf::from("/data/segment").join("payload_storage")
    );
    assert_eq!(storage_dir(&PathBuf::new()), PathBuf::from("payload_storage"));
    let bytes = |path: &str| {
        storage_dir(&PathBuf::from(path)).as_os_str().as_encoded_bytes().to_vec()
    };
    assert_eq!(bytes("/"), b"/payload_storage");
    assert_eq!(bytes("a/"), b"a/payload_storage");
    assert_eq!(bytes("a").len(), "a/payload_storage".len());
    assert!(bytes("a").ends_with(b"payload_storage"));
}

#[test]
fn directory_of_the_old_storage() {
    let old = |path: &str| old_dir(&PathBuf::from(path)).as_os_str().as_encoded_bytes().to_vec();
    assert_eq!(old("payload_storage"), b"payload_storage.lz4_old");
    assert_eq!(old("/data/seg.1/payload_storage"), b"/data/seg.1/payload_storage.lz4_old");
}

#[test]
fn directory_that_the_storage_stands_in() {
    let parent =
        |path: &str| parent_dir(&PathBuf::from(path)).as_os_str().as_encoded_bytes().to_vec();
    assert_eq!(parent("/data/segment/payload_storage"), b"/data/segment");
    assert_eq!(parent("/payload_storage"), b"/");
    assert_eq!(parent("payload_storage"), b"");
    assert_eq!(parent(""), b".");
    assert_eq!(parent("/"), b".");
}

#[test]
fn options_of_the_new_storage() {
    let options = new_options();
    assert_eq!(options.page_size_bytes, None);
    assert_eq!(options.block_size_bytes, None);
    assert_eq!(options.compression, Some(Compression::LZ4Dict));
}

#[test]
fn existing_directory_is_opened() {
    let step = MmapPayloadStorage::open_or_create(OpenStep::FindDirectory, Outcome::Found(true), false);
    assert!(matches!(step, OpenStep::OpenStorage));
    let mut before = storage(Compression::LZ4, false);
    overwrite(&mut before, 2, r#"{"a":1}"#);
    let opened = Outcome::Opened(Ok(copy(before.storage())));
    match MmapPayloadStorage::open_or_create(step, opened, false) {
        OpenStep::Opened { storage } => {
            assert_eq!(get(&storage, 2), r#"{"a":1}"#);
            assert!(storage.is_on_disk());
        }
        other => panic!("{other:?}"),
    }
}

#[test]
fn missing_directory_is_created() {
    let step = MmapPayloadStorage::open_or_create(OpenStep::FindDirectory, Outcome::Found(false), true);
    assert!(matches!(step, OpenStep::CreateDirectory));
    let step = MmapPayloadStorage::open_or_create(step, Outcome::File(Ok(())), true);
    assert!(matches!(step, OpenStep::CreateStorage));
    let step = MmapPayloadStorage::open_or_create(step, Outcome::Store(Ok(())), true);
    assert!(matches!(step, OpenStep::Populate { .. }));
    match MmapPayloadStorage::open_or_create(step, Outcome::Store(Ok(())), true) {
        OpenStep::Opened { storage } => {
            assert_eq!(get(&storage, 0), "{}");
            assert!(!storage.is_on_disk());
            let (config, tracker, pages, dictionary) = storage.storage().parts();
            assert_eq!(config.page_size_bytes, 32 * 1024 * 1024);
            assert_eq!(config.block_size_bytes, 128);
            assert_eq!(config.compression, Compression::LZ4);
            assert_eq!(tracker.pointer_count(), 0);
            assert_eq!(pages.num_pages(), 0);
            assert!(dictionary.is_none());
            let mut counter = HardwareCounterCell::new();
            let unreachable = storage.iter(|_, _| panic!("called"), &mut counter);
            assert_eq!(unreachable, Ok(()));
        }
        other => panic!("{other:?}"),
    }
}

#[test]
fn failures_to_open_are_described() {
    let lost = || Outcome::Opened(Err(GridstoreError::Corrupted));
    let corrupted = Outcome::Store(Err(GridstoreError::Corrupted));
    assert_eq!(
        open_failed(MmapPayloadStorage::open_or_create(OpenStep::CreateDirectory, io(), false)),
        OperationError::service_error("Failed to create mmap payload storage directory")
    );
    assert_eq!(
        open_failed(MmapPayloadStorage::open_or_create(OpenStep::OpenStorage, lost(), false)),
        OperationError::service_error("Failed to open mmap payload storage: corrupted storage")
    );
    assert_eq!(
        open_failed(MmapPayloadStorage::open_or_create(OpenStep::CreateStorage, corrupted, false)),
        OperationError::Gridstore(GridstoreError::Corrupted)
    );
    let populate = OpenStep::Populate { storage: storage(Compression::LZ4, true) };
    assert_eq!(
        open_failed(MmapPayloadStorage::open_or_create(populate, refused(), true)),
        OperationError::Gridstore(GridstoreError::Io("disk full".to_string()))
    );
}

#[test]
fn nothing_to_optimize() {
    let mut rng = StdRng::seed_from_u64(1);
    let empty = storage(Compression::LZ4, false);
    assert!(!empty.is_optimizable());
    assert!(matches!(empty.checked_start_optimize(&mut rng), Some(OptimizeStep::Done)));
    assert!(matches!(empty.start_optimize(&[]), OptimizeStep::Done));
    assert_eq!(empty.storage().compression(), Compression::LZ4);
    for compression in [Compression::Uncompressed, Compression::LZ4Dict] {
        let mut storage = storage(compression, false);
        overwrite(&mut storage, 0, r#"{"a":1}"#);
        assert!(!storage.is_optimizable());
        assert!(storage.draw_sample(&mut rng).is_empty());
        assert!(matches!(storage.start_optimize(&[]), OptimizeStep::Done));
        assert!(matches!(storage.checked_start_optimize(&mut rng), Some(OptimizeStep::Done)));
    }
    // The generator was not drawn from.
    assert_eq!(rng, StdRng::seed_from_u64(1));
}

#[test]
fn sample_is_drawn_without_repetition() {
    let mut storage = storage(Compression::LZ4, false);
    for point_id in 0..30 {
        overwrite(&mut storage, point_id, "{}");
    }
    let mut offsets = storage.draw_sample(&mut StdRng::seed_from_u64(7));
    offsets.sort();
    assert_eq!(offsets, (0..30).collect::<Vec<usize>>());
}

#[test]
fn sample_is_limited() {
    let mut storage = storage(Compression::LZ4, false);
    for point_id in 0..1200 {
        overwrite(&mut storage, point_id, r#"{"a":1}"#);
    }
    let mut offsets = storage.draw_sample(&mut StdRng::seed_from_u64(7));
    assert_eq!(offsets.len(), 1000);
    offsets.sort();
    offsets.dedup();
    assert_eq!(offsets.len(), 1000);
    assert!(offsets.iter().all(|offset| *offset < 1200));
}

#[test]
fn dictionary_is_the_text_of_the_schema() {
    let mut storage = storage(Compression::LZ4, false);
    overwrite(&mut storage, 0, r#"{"city":"Berlin","n":7}"#);
    overwrite(&mut storage, 2, r#"{"tags":["a","b"],"n":"text"}"#);
    assert_eq!(
        storage.train_dictionary(&[0, 1, 2]),
        br#"{"city":"","n":0,"tags":[""]}"#
    );
    assert_eq!(storage.train_dictionary(&[2]), br#"{"n":"","tags":[""]}"#);
    assert_eq!(storage.train_dictionary(&[2, 0]), br#"{"city":"","n":"","tags":[""]}"#);
    assert_eq!(storage.train_dictionary(&[]), b"{}");
}

#[test]
fn unread_points_add_nothing_to_the_dictionary() {
    let config = options(Compression::LZ4).into_config().unwrap();
    let mut tracker = Tracker::new();
    tracker.set(0, Err(GridstoreError::Io("lost".to_string())));
    let store = Gridstore::from_parts(config, tracker, Pages::new(), None).unwrap();
    let mut storage = storage(Compression::LZ4, false);
    drop(storage);
    storage = match MmapPayloadStorage::open(Ok(store), false) {
        OpenStep::Opened { storage } => storage,
        other => panic!("{other:?}"),
    };
    overwrite(&mut storage, 1, r#"{"a":true}"#);
    assert_eq!(storage.train_dictionary(&[0, 1]), br#"{"a":false}"#);
    // Every payload has to be rewritten, so the first that cannot be read ends the optimization.
    let step = OptimizeStep::CreateStorage { dictionary: b"{}".to_vec() };
    assert_eq!(
        failed(storage.optimize(step, Outcome::Store(Ok(())))),
        OperationError::Gridstore(GridstoreError::Io("lost".to_string()))
    );
    assert_eq!(get(&storage, 1), r#"{"a":true}"#);
}

/// Runs an optimization to its end, with a disk that gives back what was written to it.
fn run(storage: &mut MmapPayloadStorage, stale: bool) -> Vec<String> {
    let mut rng = StdRng::seed_from_u64(3);
    let mut names = Vec::new();
    let mut step = storage.checked_start_optimize(&mut rng).unwrap();
    loop {
        let (name, outcome) = match &step {
            OptimizeStep::Done => return names,
            OptimizeStep::Failed(error) => panic!("{error:?}"),
            OptimizeStep::CreateDirectory { .. } => ("directory", Outcome::File(Ok(()))),
            OptimizeStep::WriteDictionary { .. } => ("dictionary", Outcome::Store(Ok(()))),
            OptimizeStep::CreateStorage { .. } => ("storage", Outcome::Store(Ok(()))),
            OptimizeStep::Flush { .. } => ("flush", Outcome::Store(Ok(()))),
            OptimizeStep::FindStale { .. } => ("find", Outcome::Found(stale)),
            OptimizeStep::RemoveStale { .. } => ("remove stale", Outcome::File(Ok(()))),
            OptimizeStep::MoveAside => ("aside", Outcome::File(Ok(()))),
            OptimizeStep::MoveIn => ("in", Outcome::File(Ok(()))),
            OptimizeStep::RemoveOld => ("remove old", Outcome::File(Ok(()))),
            OptimizeStep::Reopen => ("reopen", Outcome::Opened(Ok(copy(storage.storage())))),
            OptimizeStep::Populate => ("populate", Outcome::Store(Ok(()))),
        };
        names.push(name.to_string());
        step = storage.optimize(step, outcome);
    }
}

#[test]
fn optimization_keeps_every_payload() {
    let mut storage = storage(Compression::LZ4, false);
    let texts: Vec<String> = (0..40)
        .map(|i| format!(r#"{{"city":"city {i}","nested":{{"tags":["tag {i}"]}},"population":{}}}"#, i * 1000))
        .collect();
    for (i, text) in texts.iter().enumerate() {
        overwrite(&mut storage, i as u32 * 3, text);
    }
    let names = run(&mut storage, false);
    assert_eq!(
        names,
        ["directory", "dictionary", "storage", "flush", "find", "aside", "in", "remove old", "reopen"]
    );
    assert_eq!(storage.storage().compression(), Compression::LZ4Dict);
    let (_, _, _, dictionary) = storage.storage().parts();
    assert_eq!(dictionary.unwrap(), br#"{"city":"","nested":{"tags":[""]},"population":0}"#);
    for (i, text) in texts.iter().enumerate() {
        assert_eq!(&get(&storage, i as u32 * 3), text);
        assert_eq!(get(&storage, i as u32 * 3 + 1), "{}");
    }
}

#[test]
fn optimized_storage_is_not_optimized_again() {
    let mut storage = storage(Compression::LZ4, false);
    overwrite(&mut storage, 0, r#"{"a":"x"}"#);
    overwrite(&mut storage, 2, r#"{"b":[1]}"#);
    assert!(!run(&mut storage, false).is_empty());
    let before = storage.storage().parts().3.unwrap().to_vec();
    assert!(run(&mut storage, false).is_empty());
    let mut rng = StdRng::seed_from_u64(5);
    assert!(matches!(storage.checked_start_optimize(&mut rng), Some(OptimizeStep::Done)));
    assert_eq!(rng, StdRng::seed_from_u64(5));
    assert_eq!(storage.storage().parts().3.unwrap(), before);
    assert_eq!(storage.storage().compression(), Compression::LZ4Dict);
    assert_eq!(get(&storage, 0), r#"{"a":"x"}"#);
    assert_eq!(get(&storage, 2), r#"{"b":[1]}"#);
}

#[test]
fn optimization_removes_what_is_in_the_way_and_populates() {
    let mut storage = storage(Compression::LZ4, true);
    overwrite(&mut storage, 0, r#"{"a":1}"#);
    assert_eq!(
        run(&mut storage, true),
        [
            "directory",
            "dictionary",
            "storage",
            "flush",
            "find",
            "remove stale",
            "aside",
            "in",
            "remove old",
            "reopen",
            "populate"
        ]
    );
    assert_eq!(get(&storage, 0), r#"{"a":1}"#);
    assert!(!storage.is_on_disk());
}

#[test]
fn failures_before_the_swap_keep_the_storage() {
    let mut storage = storage(Compression::LZ4, false);
    overwrite(&mut storage, 0, r#"{"a":1}"#);
    let dictionary = || b"{}".to_vec();
    let new = || Gridstore::new(options(Compression::LZ4Dict), Some(b"{}".to_vec())).unwrap();
    let io_error = OperationError::Io("disk full".to_string());
    let store_error = OperationError::Gridstore(GridstoreError::Io("disk full".to_string()));

    let step = OptimizeStep::CreateDirectory { dictionary: dictionary() };
    assert_eq!(failed(storage.optimize(step, io())), io_error);
    let step = OptimizeStep::WriteDictionary { dictionary: dictionary() };
    assert_eq!(failed(storage.optimize(step, refused())), store_error);
    let step = OptimizeStep::CreateStorage { dictionary: dictionary() };
    assert_eq!(failed(storage.optimize(step, refused())), store_error);
    let step = OptimizeStep::Flush { storage: new() };
    assert_eq!(
        failed(storage.optimize(step, refused())),
        OperationError::service_error("Failed to flush new storage: disk full")
    );
    let step = OptimizeStep::RemoveStale { storage: new() };
    assert_eq!(failed(storage.optimize(step, io())), io_error);

    assert_eq!(storage.storage().compression(), Compression::LZ4);
    assert_eq!(get(&storage, 0), r#"{"a":1}"#);
}

#[test]
fn failures_after_the_swap_end_the_optimization() {
    let mut storage = storage(Compression::LZ4, true);
    overwrite(&mut storage, 0, r#"{"a":1}"#);
    let io_error = OperationError::Io("disk full".to_string());
    for step in [OptimizeStep::MoveAside, OptimizeStep::MoveIn, OptimizeStep::RemoveOld] {
        assert_eq!(failed(storage.optimize(step, io())), io_error);
    }
    let lost = Outcome::Opened(Err(GridstoreError::Corrupted));
    assert_eq!(
        failed(storage.optimize(OptimizeStep::Reopen, lost)),
        OperationError::service_error(
            "Failed to reopen optimized payload storage: corrupted storage"
        )
    );
    assert_eq!(
        failed(storage.optimize(OptimizeStep::Populate, refused())),
        OperationError::Gridstore(GridstoreError::Io("disk full".to_string()))
    );
}

#[test]
fn bytes_of_no_payload_are_not_optimized() {
    let config = options(Compression::LZ4).into_config().unwrap();
    let block = payload_storage::lz4::compress_lz4(b"not json");
    let mut pages = Pages::new();
    pages.write(0, &block, &config);
    let mut tracker = Tracker::new();
    tracker.set(
        0,
        Ok(Some(ValuePointer { page_id: 0, block_offset: 0, length: block.len() as u32 })),
    );
    let store = Gridstore::from_parts(config, tracker, pages, None).unwrap();
    let mut storage = match MmapPayloadStorage::open(Ok(store), false) {
        OpenStep::Opened { storage } => storage,
        other => panic!("{other:?}"),
    };
    assert!(storage.checked_start_optimize(&mut StdRng::seed_from_u64(1)).is_none());
    let step = OptimizeStep::CreateStorage { dictionary: b"{}".to_vec() };
    assert!(storage.checked_optimize(step, Outcome::Store(Ok(()))).is_none());
    overwrite(&mut storage, 0, r#"{"a":1}"#);
    let step = OptimizeStep::CreateStorage { dictionary: b"{}".to_vec() };
    assert!(matches!(
        storage.checked_optimize(step, Outcome::Store(Ok(()))),
        Some(OptimizeStep::Flush { .. })
    ));
}

#[test]
fn only_the_sample_is_looked_at() {
    // More points than a sample has, one of them with bytes of no payload: some samples miss it.
    let config = options(Compression::LZ4).into_config().unwrap();
    let good = payload_storage::lz4::compress_lz4(br#"{"a":1}"#);
    let bad = payload_storage::lz4::compress_lz4(b"not json");
    let mut pages = Pages::new();
    pages.write(0, &good, &config);
    pages.write(64, &bad, &config);
    let mut tracker = Tracker::new();
    for point_id in 0..4000 {
        tracker.set(
            point_id,
            Ok(Some(ValuePointer { page_id: 0, block_offset: 0, length: good.len() as u32 })),
        );
    }
    tracker.set(
        7,
        Ok(Some(ValuePointer { page_id: 0, block_offset: 4, length: bad.len() as u32 })),
    );
    let store = Gridstore::from_parts(config, tracker, pages, None).unwrap();
    let mut storage = match MmapPayloadStorage::open(Ok(store), false) {
        OpenStep::Opened { storage } => storage,
        other => panic!("{other:?}"),
    };
    for seed in 0..20 {
        let sample = storage.draw_sample(&mut StdRng::seed_from_u64(seed));
        let step = storage.checked_start_optimize(&mut StdRng::seed_from_u64(seed));
        match step {
            Some(OptimizeStep::CreateDirectory { dictionary }) => {
                assert!(!sample.contains(&7));
                assert_eq!(dictionary, br#"{"a":0}"#);
            }
            None => assert!(sample.contains(&7)),
            other => panic!("{other:?}"),
        }
    }
    // Rewriting comes to it in any case.
    let step = OptimizeStep::CreateStorage { dictionary: b"{}".to_vec() };
    assert!(storage.checked_optimize(step, Outcome::Store(Ok(()))).is_none());
    let step = OptimizeStep::CreateStorage { dictionary: b"{}".to_vec() };
    assert_eq!(
        failed(storage.checked_optimize(step, refused()).unwrap()),
        OperationError::Gridstore(GridstoreError::Io("disk full".to_string()))
    );
}

#[test]
fn flushed_storage_opens_again() {
    let mut flushed = storage(Compression::LZ4, false);
    overwrite(&mut flushed, 1, r#"{"a":1}"#);
    overwrite(&mut flushed, 4, r#"{"b":[2,3]}"#);
    let counter = HardwareCounterCell::new();
    flushed.clear(1, &counter).unwrap();
    for populate in [false, true] {
        let mut step = OpenStep::FindDirectory;
        let opened = loop {
            let outcome = match &step {
                OpenStep::FindDirectory => Outcome::Found(true),
                OpenStep::OpenStorage => Outcome::Opened(Ok(copy(flushed.storage()))),
                OpenStep::Populate { .. } => Outcome::Store(Ok(())),
                OpenStep::Opened { .. } => match step {
                    OpenStep::Opened { storage } => break storage,
                    _ => unreachable!(),
                },
                other => panic!("{other:?}"),
            };
            step = MmapPayloadStorage::open_or_create(step, outcome, populate);
        };
        assert_eq!(opened.is_on_disk(), !populate);
        for point_id in 0..6 {
            assert_eq!(get(&opened, point_id), get(&flushed, point_id));
        }
        let mut seen = Vec::new();
        let mut counter = HardwareCounterCell::new();
        opened
            .iter(
                |point_id, _| {
                    seen.push(point_id);
                    Ok(true)
                },
                &mut counter,
            )
            .unwrap();
        assert_eq!(seen, vec![4]);
    }
}
