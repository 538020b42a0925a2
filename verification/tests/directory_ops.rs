use block_directory::Error;
use block_directory::blocking::BlockingDirectory;
use block_directory::storage::BLOCK_CAPACITY;

fn s(text: &str) -> String {
    text.to_string()
}

#[test]
fn write_terminate_read_range() {
    let mut dir = BlockingDirectory::new();
    let path = s("seg/0.store");
    let w = dir.open_write(&path);
    dir.write_with(&w, &vec![1u8, 2, 3, 4, 5]).unwrap();
    dir.terminate_writer(w).unwrap();
    let rd = dir.get_file_handle(&path).unwrap();
    let bytes = dir.read_with(&rd, 1, 4).unwrap();
    assert_eq!(bytes, vec![2u8, 3, 4]);
}

#[test]
fn round_trip_full_content() {
    let mut dir = BlockingDirectory::new();
    let path = s("seg/1.pos");
    let data: Vec<u8> = (0u8..=255).collect();
    let w = dir.open_write(&path);
    dir.write_with(&w, &data).unwrap();
    dir.terminate_writer(w).unwrap();
    let rd = dir.get_file_handle(&path).unwrap();
    let bytes = dir.read_with(&rd, 0, data.len()).unwrap();
    assert_eq!(bytes, data);
}

#[test]
fn round_trip_across_many_blocks() {
    let mut dir = BlockingDirectory::new();
    let path = s("seg/2.idx");
    let data: Vec<u8> = (0..(3 * BLOCK_CAPACITY + 17)).map(|i| (i % 251) as u8).collect();
    let w = dir.open_write(&path);
    dir.write_with(&w, &data).unwrap();
    dir.terminate_writer(w).unwrap();
    let rd = dir.get_file_handle(&path).unwrap();
    let bytes = dir.read_with(&rd, 0, data.len()).unwrap();
    assert_eq!(bytes, data);
    let middle = dir.read_with(&rd, BLOCK_CAPACITY - 3, BLOCK_CAPACITY + 3).unwrap();
    assert_eq!(middle, data[BLOCK_CAPACITY - 3..BLOCK_CAPACITY + 3].to_vec());
}

#[test]
fn appends_accumulate_in_order() {
    let mut dir = BlockingDirectory::new();
    let path = s("seg/3.store");
    let w = dir.open_write(&path);
    dir.write_with(&w, &vec![10u8, 11]).unwrap();
    dir.write_with(&w, &vec![12u8]).unwrap();
    dir.write_with(&w, &vec![13u8, 14]).unwrap();
    dir.terminate_writer(w).unwrap();
    let rd = dir.get_file_handle(&path).unwrap();
    let bytes = dir.read_with(&rd, 0, 5).unwrap();
    assert_eq!(bytes, vec![10u8, 11, 12, 13, 14]);
}

#[test]
fn append_after_terminate_is_invalid_state() {
    let mut dir = BlockingDirectory::new();
    let path = s("seg/4.store");
    let w = dir.open_write(&path);
    dir.write_with(&w, &vec![1u8]).unwrap();
    dir.terminate_writer(w).unwrap();
    let w2 = dir.open_write(&path);
    assert_eq!(dir.write_with(&w2, &vec![2u8]), Err(Error::InvalidState));
    // the failed write left the content alone
    let rd = dir.get_file_handle(&path).unwrap();
    assert_eq!(dir.read_with(&rd, 0, 1).unwrap(), vec![1u8]);
}

#[test]
fn terminate_twice_is_invalid_state() {
    let mut dir = BlockingDirectory::new();
    let path = s("seg/5.store");
    let w = dir.open_write(&path);
    dir.write_with(&w, &vec![1u8]).unwrap();
    dir.terminate_writer(w).unwrap();
    let w2 = dir.open_write(&path);
    assert_eq!(dir.terminate_writer(w2), Err(Error::InvalidState));
}

#[test]
fn read_out_of_range_is_storage_error() {
    let mut dir = BlockingDirectory::new();
    let path = s("seg/6.store");
    let w = dir.open_write(&path);
    dir.write_with(&w, &vec![1u8, 2, 3]).unwrap();
    let rd = dir.get_file_handle(&path).unwrap();
    assert_eq!(dir.read_with(&rd, 0, 4), Err(Error::StorageError));
    assert_eq!(dir.read_with(&rd, 2, 1), Err(Error::StorageError));
    assert_eq!(dir.read_with(&rd, 3, 3).unwrap(), Vec::<u8>::new());
}

#[test]
fn unknown_path_is_storage_error() {
    let dir = BlockingDirectory::new();
    assert_eq!(dir.get_file_handle(&s("missing")).err(), Some(Error::StorageError));
    assert_eq!(dir.directory_lookup(&s("missing")).err(), Some(Error::StorageError));
}

#[test]
fn lookup_reports_spans_and_length() {
    let mut dir = BlockingDirectory::new();
    let path = s("seg/7.store");
    let w = dir.open_write(&path);
    dir.write_with(&w, &vec![7u8; 10]).unwrap();
    let entry = dir.directory_lookup(&path).unwrap();
    assert_eq!(entry.path, path);
    assert_eq!(entry.total_len, 10);
    assert!(!entry.finalized);
    dir.terminate_writer(w).unwrap();
    let entry = dir.directory_lookup(&path).unwrap();
    assert!(entry.finalized);
}

#[test]
fn registered_files_accumulate_as_a_set() {
    let mut dir = BlockingDirectory::new();
    dir.register_files_as_managed(&vec![s("a"), s("b")], false);
    dir.register_files_as_managed(&vec![s("c")], false);
    let first = dir.list_managed_files();
    let second = dir.list_managed_files();
    for listing in [&first, &second] {
        assert_eq!(listing.len(), 3);
        for name in ["a", "b", "c"] {
            assert!(listing.iter().any(|f| f == name));
        }
    }
}

#[test]
fn registering_again_does_not_duplicate() {
    let mut dir = BlockingDirectory::new();
    dir.register_files_as_managed(&vec![s("a"), s("a"), s("b")], false);
    dir.register_files_as_managed(&vec![s("b"), s("a")], false);
    assert_eq!(dir.list_managed_files().len(), 2);
}

#[test]
fn register_with_overwrite_replaces_the_set() {
    let mut dir = BlockingDirectory::new();
    dir.register_files_as_managed(&vec![s("a"), s("b")], false);
    dir.register_files_as_managed(&vec![s("c")], true);
    let listing = dir.list_managed_files();
    assert_eq!(listing.len(), 1);
    assert_eq!(listing[0], "c");
}

#[test]
fn saved_metadata_comes_back_with_advanced_generation() {
    let mut dir = BlockingDirectory::new();
    assert_eq!(dir.load_metas(), (0, Vec::new()));
    dir.save_metas(vec![1u8, 2, 3]);
    assert_eq!(dir.load_metas(), (1, vec![1u8, 2, 3]));
    dir.save_metas(vec![9u8]);
    assert_eq!(dir.load_metas(), (2, vec![9u8]));
}

#[test]
fn generation_observations_never_decrease() {
    let mut dir = BlockingDirectory::new();
    let mut last = dir.load_metas().0;
    for round in 0u8..5 {
        dir.save_metas(vec![round]);
        let (generation, payload) = dir.load_metas();
        // the pair belongs to one single save: never partially updated
        assert_eq!(payload, vec![round]);
        assert!(generation >= last);
        last = generation;
    }
}

#[test]
fn degenerate_capabilities() {
    let mut dir = BlockingDirectory::new();
    assert_eq!(dir.atomic_write(&s("meta.json"), &vec![1u8]), Err(Error::ContractViolation));
    assert_eq!(dir.atomic_read(&s("meta.json")), Err(Error::ContractViolation));
    assert_eq!(dir.watch(), Err(Error::ContractViolation));
    assert_eq!(dir.delete(&s("seg/0.store")), Ok(()));
    assert_eq!(dir.file_exists(&s("anything")), Ok(true));
    assert_eq!(dir.acquire_lock(&s("index.lock")), Ok(()));
    assert_eq!(dir.sync_directory(), Ok(()));
    // delete really had no effect on an existing file
    let w = dir.open_write(&s("kept"));
    dir.write_with(&w, &vec![5u8]).unwrap();
    dir.delete(&s("kept")).unwrap();
    assert!(dir.get_file_handle(&s("kept")).is_ok());
}

#[test]
fn two_paths_stay_independent() {
    let mut dir = BlockingDirectory::new();
    let wa = dir.open_write(&s("a.store"));
    let wb = dir.open_write(&s("b.store"));
    dir.write_with(&wa, &vec![1u8, 2]).unwrap();
    dir.write_with(&wb, &vec![3u8, 4]).unwrap();
    dir.terminate_writer(wa).unwrap();
    // appending to the finalized path fails, the other path still grows
    let wa2 = dir.open_write(&s("a.store"));
    assert_eq!(dir.write_with(&wa2, &vec![9u8]), Err(Error::InvalidState));
    dir.write_with(&wb, &vec![5u8]).unwrap();
    let ra = dir.get_file_handle(&s("a.store")).unwrap();
    let rb = dir.get_file_handle(&s("b.store")).unwrap();
    assert_eq!(dir.read_with(&ra, 0, 2).unwrap(), vec![1u8, 2]);
    assert_eq!(dir.read_with(&rb, 0, 3).unwrap(), vec![3u8, 4, 5]);
}

#[test]
fn empty_write_keeps_content() {
    let mut dir = BlockingDirectory::new();
    let path = s("seg/8.store");
    let w = dir.open_write(&path);
    dir.write_with(&w, &vec![1u8]).unwrap();
    dir.write_with(&w, &Vec::new()).unwrap();
    let rd = dir.get_file_handle(&path).unwrap();
    assert_eq!(dir.read_with(&rd, 0, 1).unwrap(), vec![1u8]);
    assert_eq!(dir.read_with(&rd, 0, 0).unwrap(), Vec::<u8>::new());
}

#[test]
fn write_of_exactly_one_block() {
    let mut dir = BlockingDirectory::new();
    let path = s("seg/9.store");
    let data: Vec<u8> = (0..BLOCK_CAPACITY).map(|i| (i % 13) as u8).collect();
    let w = dir.open_write(&path);
    dir.write_with(&w, &data).unwrap();
    let rd = dir.get_file_handle(&path).unwrap();
    assert_eq!(dir.read_with(&rd, 0, data.len()).unwrap(), data);
}

#[test]
fn terminate_without_write_makes_an_empty_file() {
    let mut dir = BlockingDirectory::new();
    let path = s("seg/10.store");
    let w = dir.open_write(&path);
    dir.terminate_writer(w).unwrap();
    let rd = dir.get_file_handle(&path).unwrap();
    assert_eq!(dir.read_with(&rd, 0, 0).unwrap(), Vec::<u8>::new());
    let w2 = dir.open_write(&path);
    assert_eq!(dir.write_with(&w2, &vec![1u8]), Err(Error::InvalidState));
}
