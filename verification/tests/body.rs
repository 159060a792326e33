use dubbo::body::{BufferedBody, DataStep, InnerBuffer, OwnedBufferedBody, ReachMaxCapacityError, TrailerStep};

fn replayed(step: DataStep) -> Vec<u8> {
    match step {
        DataStep::Replay(mut buf) => {
            let n = buf.remaining();
            buf.copy_to_bytes(n)
        }
        other => panic!("expected a replay, got {:?}", other),
    }
}

#[test]
fn inner_buffer_reads_across_chunks() {
    let mut b = InnerBuffer::new(100);
    assert_eq!(b.push_bytes(vec![1, 2, 3]), vec![1, 2, 3]);
    b.push_bytes(vec![4, 5]);
    assert_eq!(b.remaining(), 5);
    assert!(b.has_remaining());
    assert_eq!(b.chunk(), vec![1, 2, 3]);
    b.advance(2);
    assert_eq!(b.chunk(), vec![3]);
    assert_eq!(b.remaining(), 3);
    assert_eq!(b.copy_to_bytes(2), vec![3, 4]);
    assert_eq!(b.remaining(), 1);
    assert_eq!(b.copy_to_bytes(10), vec![5]);
    assert!(!b.has_remaining());
    assert_eq!(b.chunk(), Vec::<u8>::new());
}

#[test]
fn inner_buffer_advance_past_the_end_empties_it() {
    let mut b = InnerBuffer::new(10);
    b.push_bytes(vec![7, 8]);
    b.push_bytes(vec![]);
    b.push_bytes(vec![9]);
    b.advance(100);
    assert_eq!(b.remaining(), 0);
    assert!(!b.is_capped());
    assert!(InnerBuffer::new(0).is_capped());
}

fn kept(body: &BufferedBody) -> usize {
    body.owned.as_ref().unwrap().buf.remaining()
}

#[test]
fn replica_replays_what_was_read() {
    let mut shared: Option<OwnedBufferedBody> = None;
    let mut body = BufferedBody::new(false, 16);
    assert!(matches!(body.begin_data(&mut shared), DataStep::Poll));
    assert_eq!(body.on_chunk(b"hello".to_vec()), b"hello".to_vec());
    assert!(matches!(body.begin_data(&mut shared), DataStep::Poll));
    assert_eq!(body.on_chunk(b" world".to_vec()), b" world".to_vec());
    assert_eq!(body.owned.as_ref().unwrap().buf.capacity, 5);
    body.on_end();
    assert!(matches!(body.begin_data(&mut shared), DataStep::End));

    let mut replica = body.replica();
    body.release(&mut shared);
    assert_eq!(replayed(replica.begin_data(&mut shared)), b"hello world".to_vec());
    assert!(shared.is_none());
    assert!(matches!(replica.begin_data(&mut shared), DataStep::End));
}

#[test]
fn replica_made_before_reading_replays_what_was_read_by_then() {
    let mut shared: Option<OwnedBufferedBody> = None;
    let mut body = BufferedBody::new(false, 64);
    let mut replica = body.replica();
    assert!(matches!(body.begin_data(&mut shared), DataStep::Poll));
    body.on_chunk(b"abc".to_vec());
    body.on_chunk(b"de".to_vec());
    body.on_end();
    body.release(&mut shared);
    assert!(body.owned.is_none());
    assert_eq!(replayed(replica.begin_data(&mut shared)), b"abcde".to_vec());
}

#[test]
fn reaching_the_capacity_drops_the_kept_bytes() {
    let mut shared: Option<OwnedBufferedBody> = None;
    let mut body = BufferedBody::new(false, 5);
    body.on_chunk(b"hel".to_vec());
    assert_eq!(kept(&body), 3);
    assert_eq!(body.on_chunk(b"lo".to_vec()), b"lo".to_vec());
    assert_eq!(body.owned.as_ref().unwrap().buf.capacity, 0);
    assert_eq!(kept(&body), 0);
    let mut replica = body.replica();
    body.release(&mut shared);
    assert!(matches!(replica.begin_data(&mut shared), DataStep::Capped));
}

#[test]
fn a_chunk_over_the_capacity_is_not_kept() {
    let mut shared: Option<OwnedBufferedBody> = None;
    let mut body = BufferedBody::new(false, 4);
    assert_eq!(body.on_chunk(b"hello".to_vec()), b"hello".to_vec());
    assert_eq!(body.owned.as_ref().unwrap().buf.capacity, 0);
    assert!(!body.owned.as_ref().unwrap().buf.has_remaining());
    let mut replica = body.replica();
    body.release(&mut shared);
    assert!(matches!(replica.begin_data(&mut shared), DataStep::Capped));
    assert!(matches!(replica.begin_data(&mut shared), DataStep::Poll));
}

#[test]
fn an_empty_body_ends_at_once() {
    let mut shared: Option<OwnedBufferedBody> = None;
    let mut body = BufferedBody::new(true, 64);
    assert!(body.is_end_stream(false));
    assert!(matches!(body.begin_data(&mut shared), DataStep::End));
    let mut replica = body.replica();
    body.release(&mut shared);
    assert!(replica.is_end_stream(false));
    assert!(matches!(replica.begin_data(&mut shared), DataStep::End));
}

#[test]
fn trailers_are_replayed_once() {
    let mut shared: Option<OwnedBufferedBody> = None;
    let mut body = BufferedBody::new(false, 64);
    assert_eq!(body.begin_trailers(&mut shared, false), TrailerStep::Poll);
    body.on_trailers(true);
    assert_eq!(body.begin_trailers(&mut shared, true), TrailerStep::Done);
    let mut replica = body.replica();
    body.release(&mut shared);
    assert!(!replica.is_end_stream(true));
    assert_eq!(replica.begin_trailers(&mut shared, true), TrailerStep::Replay);
    assert_eq!(replica.begin_trailers(&mut shared, true), TrailerStep::Done);
    assert!(matches!(replica.begin_data(&mut shared), DataStep::Poll));
    assert!(replica.is_end_stream(true));
}

#[test]
fn capacity_error_message() {
    assert_eq!(ReachMaxCapacityError.to_string(), "buffered body reach max capacity.");
}
