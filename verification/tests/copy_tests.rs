use wssh_client::copy::{CopyEvent, CopyProgress, CopyStep};
use wssh_client::errors::ClientError;
use wssh_client::frame_buffer::FrameBuffer;

#[test]
fn zero_length_source_copies_successfully() {
    let mut progress = CopyProgress::new();
    match progress.step(CopyEvent::Eof) {
        CopyStep::Done => {}
        _ => panic!("an empty source completes at once"),
    }
    assert_eq!(progress.result(), Ok(0));
}

#[test]
fn copy_accounts_every_byte_in_order() {
    let mut progress = CopyProgress::new();
    let mut destination: Vec<u8> = Vec::new();
    for ev in [
        CopyEvent::Chunk(vec![1u8, 2, 3]),
        CopyEvent::Chunk(vec![]),
        CopyEvent::Chunk(vec![4u8]),
        CopyEvent::Eof,
    ] {
        match progress.step(ev) {
            CopyStep::Write(bytes) => destination.extend_from_slice(&bytes),
            CopyStep::Done => break,
            CopyStep::Fail => panic!("no failure was simulated"),
        }
    }
    assert_eq!(destination, vec![1u8, 2, 3, 4]);
    assert_eq!(progress.result(), Ok(4));
}

#[test]
fn mid_read_failure_is_always_reported() {
    let mut progress = CopyProgress::new();
    let mut destination: Vec<u8> = Vec::new();
    match progress.step(CopyEvent::Chunk(vec![9u8, 9])) {
        CopyStep::Write(bytes) => destination.extend_from_slice(&bytes),
        _ => panic!("a chunk is written through"),
    }
    match progress.step(CopyEvent::Failed) {
        CopyStep::Fail => {}
        _ => panic!("a mid-read failure ends the run"),
    }
    // The destination is truncated at what was written, and the failure is
    // reported, never swallowed.
    assert_eq!(destination, vec![9u8, 9]);
    assert_eq!(progress.result(), Err(ClientError::LocalIo));
}

#[test]
fn frame_buffer_preserves_order_across_partial_reads() {
    let mut buffer = FrameBuffer::new();
    assert!(buffer.is_empty());
    buffer.stash_tail(&vec![10u8, 11, 12, 13, 14], 1);
    assert_eq!(buffer.len(), 4);
    assert_eq!(buffer.take(2), vec![11u8, 12]);
    assert_eq!(buffer.take(1), vec![13u8]);
    assert!(!buffer.is_empty());
    assert_eq!(buffer.take(5), vec![14u8]);
    assert!(buffer.is_empty());
    assert_eq!(buffer.take(3), Vec::<u8>::new());
}

#[test]
fn frame_buffer_zero_capacity_read_takes_nothing() {
    let mut buffer = FrameBuffer::new();
    buffer.stash_tail(&vec![1u8, 2], 0);
    assert_eq!(buffer.take(0), Vec::<u8>::new());
    assert_eq!(buffer.len(), 2);
    assert_eq!(buffer.take(2), vec![1u8, 2]);
}
