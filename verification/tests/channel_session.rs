use block_directory::Error;
use block_directory::blocking::BlockingDirectory;
use block_directory::channel::ChannelRequest;
use block_directory::session::open_session;

fn s(text: &str) -> String {
    text.to_string()
}

#[test]
fn action_callbacks_are_serviced_before_its_reply() {
    let dir = BlockingDirectory::new();
    let (channel_dir, mut handler, endpoints) = open_session::<u8, u8>(dir);
    crossbeam::scope(|scope| {
        let worker_dir = channel_dir.clone();
        scope.spawn(move |_| {
            let action = endpoints.action_receiver.recv().unwrap();
            assert_eq!(action, 7);
            // the action issues one write and two reads before replying
            worker_dir.write_bytes(s("seg/0.store"), vec![1u8, 2, 3, 4, 5]).unwrap();
            let head = worker_dir.read_bytes(s("seg/0.store"), 0, 2).unwrap();
            assert_eq!(head, vec![1u8, 2]);
            let tail = worker_dir.read_bytes(s("seg/0.store"), 3, 5).unwrap();
            assert_eq!(tail, vec![4u8, 5]);
            endpoints.reply_sender.send(42).unwrap();
        });
        let reply = handler.wait_for(7).unwrap();
        assert_eq!(reply, 42);
    })
    .unwrap();
}

#[test]
fn dropped_reply_channel_surfaces_as_disconnected() {
    let dir = BlockingDirectory::new();
    let (_channel_dir, mut handler, endpoints) = open_session::<u8, u8>(dir);
    crossbeam::scope(|scope| {
        scope.spawn(move |_| {
            let _action = endpoints.action_receiver.recv().unwrap();
            // the worker dies without replying: both endpoints drop here
            drop(endpoints.reply_sender);
        });
        assert_eq!(handler.wait_for(1), Err(Error::Disconnected));
    })
    .unwrap();
}

#[test]
fn dropped_worker_fails_the_submission() {
    let dir = BlockingDirectory::new();
    let (_channel_dir, mut handler, endpoints) = open_session::<u8, u8>(dir);
    drop(endpoints);
    assert_eq!(handler.wait_for(1), Err(Error::Disconnected));
}

#[test]
fn listings_over_the_channel_return_the_union() {
    let dir = BlockingDirectory::new();
    let (channel_dir, mut handler, _endpoints) = open_session::<u8, u8>(dir);
    crossbeam::scope(|scope| {
        let client = channel_dir.clone();
        scope.spawn(move |_| {
            client.register_files_as_managed(vec![s("a"), s("b")], false).unwrap();
            client.register_files_as_managed(vec![s("c")], false).unwrap();
            let first = client.list_managed_files().unwrap();
            let second = client.list_managed_files().unwrap();
            for listing in [&first, &second] {
                assert_eq!(listing.len(), 3);
                for name in ["a", "b", "c"] {
                    assert!(listing.iter().any(|f| f == name));
                }
            }
            client.terminate_session().unwrap();
        });
        handler.receive_blocking().unwrap();
    })
    .unwrap();
}

#[test]
fn segment_cycle_over_the_channel() {
    let dir = BlockingDirectory::new();
    let (channel_dir, mut handler, _endpoints) = open_session::<u8, u8>(dir);
    crossbeam::scope(|scope| {
        let client = channel_dir.clone();
        scope.spawn(move |_| {
            client.write_bytes(s("seg/1.store"), vec![1u8, 2, 3, 4, 5]).unwrap();
            client.terminate_write(s("seg/1.store")).unwrap();
            let entry = client.get_file_handle(s("seg/1.store")).unwrap();
            assert_eq!(entry.total_len, 5);
            assert!(entry.finalized);
            let range = client.read_bytes(s("seg/1.store"), 1, 4).unwrap();
            assert_eq!(range, vec![2u8, 3, 4]);
            client.terminate_session().unwrap();
        });
        handler.receive_blocking().unwrap();
    })
    .unwrap();
}

#[test]
fn metadata_cycle_over_the_channel() {
    let dir = BlockingDirectory::new();
    let (channel_dir, mut handler, _endpoints) = open_session::<u8, u8>(dir);
    crossbeam::scope(|scope| {
        let client = channel_dir.clone();
        scope.spawn(move |_| {
            assert_eq!(client.load_metas().unwrap(), (0, Vec::new()));
            client.save_metas(vec![8u8, 9]).unwrap();
            assert_eq!(client.load_metas().unwrap(), (1, vec![8u8, 9]));
            client.terminate_session().unwrap();
        });
        handler.receive_blocking().unwrap();
    })
    .unwrap();
}

#[test]
fn failed_request_stops_the_handler_with_its_error() {
    let dir = BlockingDirectory::new();
    let (channel_dir, mut handler, _endpoints) = open_session::<u8, u8>(dir);
    crossbeam::scope(|scope| {
        let client = channel_dir.clone();
        scope.spawn(move |_| {
            // reading a path that was never written fails in the handler;
            // the dropped reply sender then surfaces here as a disconnection
            assert_eq!(client.read_bytes(s("absent"), 0, 1), Err(Error::Disconnected));
        });
        assert_eq!(handler.receive_blocking(), Err(Error::StorageError));
    })
    .unwrap();
}

#[test]
fn terminate_without_writer_is_invalid_state() {
    let dir = BlockingDirectory::new();
    let (_channel_dir, mut handler, _endpoints) = open_session::<u8, u8>(dir);
    assert_eq!(
        handler.process_message(ChannelRequest::SegmentWriteTerminate(s("nobody"))),
        Err(Error::InvalidState)
    );
}

#[test]
fn terminate_request_stops_processing() {
    let dir = BlockingDirectory::new();
    let (_channel_dir, mut handler, _endpoints) = open_session::<u8, u8>(dir);
    assert_eq!(handler.process_message(ChannelRequest::Terminate), Ok(true));
}

#[test]
fn channel_adapter_degenerate_capabilities() {
    let dir = BlockingDirectory::new();
    let (channel_dir, _handler, _endpoints) = open_session::<u8, u8>(dir);
    assert_eq!(
        channel_dir.atomic_write(&s("meta.json"), &vec![1u8]),
        Err(Error::ContractViolation)
    );
    assert_eq!(channel_dir.atomic_read(&s("meta.json")), Err(Error::ContractViolation));
    assert_eq!(channel_dir.watch(), Err(Error::ContractViolation));
    assert_eq!(channel_dir.delete(&s("x")), Ok(()));
    assert_eq!(channel_dir.file_exists(&s("x")), Ok(true));
    assert_eq!(channel_dir.acquire_lock(&s("index.lock")), Ok(()));
    assert_eq!(channel_dir.sync_directory(), Ok(()));
}

#[test]
fn write_after_terminate_stops_the_handler_as_invalid_state() {
    let dir = BlockingDirectory::new();
    let (channel_dir, mut handler, _endpoints) = open_session::<u8, u8>(dir);
    crossbeam::scope(|scope| {
        let client = channel_dir.clone();
        scope.spawn(move |_| {
            client.write_bytes(s("seg/2.store"), vec![1u8]).unwrap();
            client.terminate_write(s("seg/2.store")).unwrap();
            // the handler refuses this write and stops with the error;
            // later sends then fail with a disconnection
            let _ = client.write_bytes(s("seg/2.store"), vec![2u8]);
        });
        assert_eq!(handler.receive_blocking(), Err(Error::InvalidState));
    })
    .unwrap();
}
