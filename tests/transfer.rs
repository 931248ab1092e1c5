use mfp_download::pool::SlotPool;
use mfp_download::transfer::{
    decide_start, OpenOutcome, Outcome, Start, StreamEnd, Transfer, TransferError,
};

#[test]
fn existing_destination_is_skipped() {
    assert!(matches!(decide_start(OpenOutcome::AlreadyExists, Some(10)), Start::Skip));
    assert!(matches!(decide_start(OpenOutcome::AlreadyExists, None), Start::Skip));
}

#[test]
fn unknown_length_fails_before_writing() {
    assert!(matches!(
        decide_start(OpenOutcome::Created, None),
        Start::Abort(TransferError::LengthUnknown)
    ));
}

#[test]
fn open_failure_is_io_error() {
    match decide_start(OpenOutcome::Failed("denied".to_string()), Some(3)) {
        Start::Abort(TransferError::Io(e)) => assert_eq!(e, "denied"),
        other => panic!("unexpected {:?}", other),
    }
}

#[test]
fn known_length_streams() {
    assert!(matches!(decide_start(OpenOutcome::Created, Some(42)), Start::Stream(42)));
}

#[test]
fn skip_releases_the_slot() {
    let mut pool = SlotPool::new(1).unwrap();
    let p = pool.try_acquire().unwrap();
    let r = Transfer::begin(&mut pool, p, Start::Skip, "a.mp3".to_string());
    assert!(matches!(r, Err(Outcome::Skipped)));
    assert_eq!(pool.available_permits(), 1);
    assert_eq!(pool.busy_slots(), 0);
}

#[test]
fn abort_releases_the_slot() {
    let mut pool = SlotPool::new(1).unwrap();
    let p = pool.try_acquire().unwrap();
    let r = Transfer::begin(
        &mut pool,
        p,
        Start::Abort(TransferError::LengthUnknown),
        "a.mp3".to_string(),
    );
    assert!(matches!(r, Err(Outcome::Failed(TransferError::LengthUnknown))));
    assert_eq!(pool.available_permits(), 1);
}

#[test]
fn completed_transfer_reaches_total() {
    let mut pool = SlotPool::new(2).unwrap();
    let p = pool.try_acquire().unwrap();
    let i = p.index();
    let mut t = match Transfer::begin(&mut pool, p, Start::Stream(10), "ep.mp3".to_string()) {
        Ok(t) => t,
        Err(o) => panic!("unexpected {:?}", o),
    };
    assert_eq!(pool.label(i), "ep.mp3");
    assert_eq!(pool.total(i), 10);
    assert_eq!(pool.position(i), 0);
    t.record_chunk(&mut pool, 4);
    assert_eq!(pool.position(i), 4);
    t.record_chunk(&mut pool, 6);
    assert_eq!(t.written(), 10);
    assert_eq!(t.total(), 10);
    assert_eq!(pool.position(i), 10);
    let o = t.finish(&mut pool, StreamEnd::Finished);
    assert!(matches!(o, Outcome::Completed));
    assert!(!pool.is_busy(i));
    assert_eq!(pool.position(i), 10);
    assert_eq!(pool.available_permits(), 2);
}

#[test]
fn stream_error_fails_and_releases() {
    let mut pool = SlotPool::new(1).unwrap();
    let p = pool.try_acquire().unwrap();
    let mut t = Transfer::begin(&mut pool, p, Start::Stream(8), "x".to_string()).ok().unwrap();
    t.record_chunk(&mut pool, 3);
    let o = t.finish(&mut pool, StreamEnd::StreamFailed("reset".to_string()));
    match o {
        Outcome::Failed(TransferError::Stream(e)) => assert_eq!(e, "reset"),
        other => panic!("unexpected {:?}", other),
    }
    assert_eq!(pool.available_permits(), 1);
    assert_eq!(pool.position(0), 3);
}

#[test]
fn write_error_fails_as_io() {
    let mut pool = SlotPool::new(1).unwrap();
    let p = pool.try_acquire().unwrap();
    let t = Transfer::begin(&mut pool, p, Start::Stream(8), "x".to_string()).ok().unwrap();
    let o = t.finish(&mut pool, StreamEnd::WriteFailed("disk full".to_string()));
    assert!(matches!(o, Outcome::Failed(TransferError::Io(_))));
    assert_eq!(pool.busy_slots(), 0);
}
