use wssh_client::adapter::{Frame, ReadOutcome, RecvEvent, StreamAdapter};
use wssh_client::errors::ClientError;

fn read_all(adapter: &mut StreamAdapter, frames: Vec<Vec<u8>>, chunk: usize) -> Vec<u8> {
    let mut out: Vec<u8> = Vec::new();
    let mut frames = frames.into_iter();
    loop {
        if let Some(bytes) = adapter.read_buffered(chunk) {
            out.extend_from_slice(&bytes);
            continue;
        }
        let event = match frames.next() {
            Some(payload) => RecvEvent::Frame(Frame::Binary(payload)),
            None => RecvEvent::Closed,
        };
        match adapter.read_frame(chunk, event) {
            ReadOutcome::Data(bytes) => out.extend_from_slice(&bytes),
            ReadOutcome::Eof => return out,
            ReadOutcome::NotReady => continue,
            ReadOutcome::Failed => panic!("unexpected transport failure"),
        }
    }
}

#[test]
fn read_reassembles_bytes_chunk_two() {
    let frames = vec![vec![1u8, 2, 3], vec![4u8, 5], vec![], vec![6u8]];
    let mut adapter = StreamAdapter::new();
    let out = read_all(&mut adapter, frames, 2);
    assert_eq!(out, vec![1u8, 2, 3, 4, 5, 6]);
}

#[test]
fn read_reassembles_bytes_chunk_one() {
    let frames = vec![vec![9u8, 8, 7, 6, 5], vec![4u8]];
    let mut adapter = StreamAdapter::new();
    let out = read_all(&mut adapter, frames, 1);
    assert_eq!(out, vec![9u8, 8, 7, 6, 5, 4]);
}

#[test]
fn read_reassembles_bytes_large_chunk() {
    let frames = vec![vec![1u8], vec![2u8, 3], vec![4u8, 5, 6, 7, 8]];
    let mut adapter = StreamAdapter::new();
    let out = read_all(&mut adapter, frames, 1024);
    assert_eq!(out, vec![1u8, 2, 3, 4, 5, 6, 7, 8]);
}

#[test]
fn oversized_frame_is_split_and_drained_in_order() {
    let mut adapter = StreamAdapter::new();
    let outcome = adapter.read_frame(2, RecvEvent::Frame(Frame::Binary(vec![10u8, 20, 30, 40])));
    match outcome {
        ReadOutcome::Data(bytes) => assert_eq!(bytes, vec![10u8, 20]),
        _ => panic!("expected data"),
    }
    assert!(adapter.has_buffered());
    let rest = adapter.read_buffered(10).expect("leftover must be served");
    assert_eq!(rest, vec![30u8, 40]);
    assert!(!adapter.has_buffered());
}

#[test]
fn small_frame_is_delivered_whole() {
    let mut adapter = StreamAdapter::new();
    let outcome = adapter.read_frame(16, RecvEvent::Frame(Frame::Binary(vec![5u8, 6])));
    match outcome {
        ReadOutcome::Data(bytes) => assert_eq!(bytes, vec![5u8, 6]),
        _ => panic!("expected data"),
    }
    assert!(!adapter.has_buffered());
}

#[test]
fn clean_close_reads_zero_bytes_repeatedly() {
    let mut adapter = StreamAdapter::new();
    for _ in 0..3 {
        match adapter.read_frame(64, RecvEvent::Closed) {
            ReadOutcome::Eof => {}
            _ => panic!("clean close must read as end of stream"),
        }
        assert!(!adapter.has_buffered());
    }
}

#[test]
fn non_binary_frame_is_not_ready() {
    let mut adapter = StreamAdapter::new();
    match adapter.read_frame(8, RecvEvent::Frame(Frame::Other)) {
        ReadOutcome::NotReady => {}
        _ => panic!("a control frame carries no stream bytes"),
    }
    assert!(!adapter.has_buffered());
}

#[test]
fn transport_error_surfaces_as_read_failure() {
    let mut adapter = StreamAdapter::new();
    let outcome = adapter.read_frame(8, RecvEvent::Failed);
    match outcome {
        ReadOutcome::Failed => {}
        _ => panic!("a transport error must surface"),
    }
    assert_eq!(outcome.failure(), Some(ClientError::Frame));
    let ok = adapter.read_frame(8, RecvEvent::Closed);
    assert_eq!(ok.failure(), None);
}

#[test]
fn writes_package_whole_buffers_in_order() {
    let writes: Vec<Vec<u8>> = vec![vec![1u8, 2], vec![], vec![3u8, 4, 5]];
    let mut observed: Vec<u8> = Vec::new();
    for w in &writes {
        match StreamAdapter::package_write(w.clone()) {
            Frame::Binary(payload) => {
                assert_eq!(&payload, w);
                observed.extend_from_slice(&payload);
            }
            Frame::Other => panic!("writes are always binary frames"),
        }
    }
    assert_eq!(observed, vec![1u8, 2, 3, 4, 5]);
}
