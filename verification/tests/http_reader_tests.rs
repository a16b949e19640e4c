use just_tile::http_reader::{
    is_fetchable, length_or_zero, parse_content_length, prefetch_result, ChunkFetch, FetchAction,
    FetchAttempts, FetchEvent, HeadOutcome, HttpRangeReader, InvalidSeek, SeekTarget, CHUNK_SIZE,
};
use std::sync::Arc;

fn reader(length: u64) -> HttpRangeReader {
    HttpRangeReader::new_with_details("https://host/file.tif", length, None)
}

fn file() -> Vec<u8> {
    (0..CHUNK_SIZE as usize + 1000).map(|i| (i % 251) as u8).collect()
}

fn chunk_of(file: &Vec<u8>, index: u64) -> Result<Arc<Vec<u8>>, String> {
    let start = (index * CHUNK_SIZE) as usize;
    let end = file.len().min(start + CHUNK_SIZE as usize);
    Ok(Arc::new(file[start..end].to_vec()))
}

#[test]
fn readers_are_made_from_head_answers() {
    let profile = Some("dev".to_string());
    let head = HeadOutcome::Answered(Some("1234".to_string()));
    let reader = HttpRangeReader::new("https://host/a", head, profile.clone()).unwrap();
    assert_eq!(reader.content_length(), 1234);
    assert_eq!(reader.url, "https://host/a");
    assert_eq!(reader.position, 0);
    assert_eq!(reader.aws_profile, profile);
}

#[test]
fn head_failures_are_reported() {
    for (head, message) in [
        (HeadOutcome::Answered(None), "Missing or invalid content-length header"),
        (
            HeadOutcome::Answered(Some("12x".to_string())),
            "Missing or invalid content-length header",
        ),
        (HeadOutcome::Failed("timeout".to_string()), "HEAD request failed: timeout"),
        (HeadOutcome::NotSigned("Sign error: x".to_string()), "Sign error: x"),
    ] {
        assert_eq!(HttpRangeReader::new("u", head, None).unwrap_err(), message);
    }
}

#[test]
fn content_lengths_are_parsed() {
    assert_eq!(parse_content_length(&Some("0".to_string())), Some(0));
    assert_eq!(parse_content_length(&Some("-1".to_string())), None);
    assert_eq!(parse_content_length(&None), None);
    assert_eq!(length_or_zero(&Some("77".to_string())), 77);
    assert_eq!(length_or_zero(&Some("-1".to_string())), 0);
    assert_eq!(length_or_zero(&None), 0);
}

#[test]
fn reads_stop_at_the_end_of_a_chunk() {
    let file = file();
    let mut reader = reader(file.len() as u64);
    reader.position = CHUNK_SIZE - 3;
    let mut buf = [9u8; 8];
    let n = reader.read(&mut buf, |index| chunk_of(&file, index)).unwrap();
    assert_eq!(n, 3);
    let at = CHUNK_SIZE as usize - 3;
    assert_eq!(&buf[..3], &file[at..at + 3]);
    assert_eq!(&buf[3..], &[9; 5]);
    assert_eq!(reader.position, CHUNK_SIZE);
}

#[test]
fn reads_one_after_the_other_give_the_file() {
    let file = file();
    let mut reader = reader(file.len() as u64);
    let mut given = Vec::new();
    loop {
        let mut buf = vec![0u8; 70_001];
        let n = reader.read(&mut buf, |index| chunk_of(&file, index)).unwrap();
        if n == 0 {
            break;
        }
        given.extend_from_slice(&buf[..n]);
    }
    assert!(given == file);
    assert_eq!(reader.position, file.len() as u64);
}

#[test]
fn reads_at_the_end_fetch_nothing() {
    let mut reader = reader(10);
    reader.position = 10;
    let mut buf = [1u8; 4];
    assert_eq!(reader.read(&mut buf, |_| panic!("nothing to fetch")), Ok(0));
    assert_eq!(buf, [1; 4]);
}

#[test]
fn short_chunks_give_short_reads() {
    let mut reader = reader(100);
    reader.position = 5;
    let mut buf = [0u8; 4];
    let n = reader.read(&mut buf, |_| Ok(Arc::new(vec![1, 2, 3, 4, 5, 6, 7])));
    assert_eq!(n, Ok(2));
    assert_eq!(buf, [6, 7, 0, 0]);
    assert_eq!(reader.read(&mut buf, |_| Ok(Arc::new(vec![1, 2]))), Ok(0));
    assert_eq!(reader.position, 7);
}

#[test]
fn reads_at_the_last_position_fit() {
    let mut reader = reader(u64::MAX);
    reader.position = u64::MAX - 1;
    let mut buf = [0u8; 64];
    let offset = ((u64::MAX - 1) % CHUNK_SIZE) as usize;
    let n = reader.read(&mut buf, |_| Ok(Arc::new(vec![5; offset + 1])));
    assert_eq!(n, Ok(1));
    assert_eq!(reader.position, u64::MAX);
    assert_eq!(reader.read(&mut buf, |_| panic!("nothing to fetch")), Ok(0));
}

#[test]
fn failed_fetches_leave_the_position() {
    let mut reader = reader(100);
    let mut buf = [3u8; 4];
    let failed = reader.read(&mut buf, |_| Err("HTTP Status 404".to_string()));
    assert_eq!(failed, Err("HTTP Status 404".to_string()));
    assert_eq!(reader.position, 0);
    assert_eq!(buf, [3; 4]);
}

#[test]
fn seeks_stay_in_the_file() {
    let mut reader = reader(100);
    assert_eq!(reader.seek(SeekTarget::Start(40)), Ok(40));
    assert_eq!(reader.seek(SeekTarget::Current(-15)), Ok(25));
    assert_eq!(reader.seek(SeekTarget::End(-1)), Ok(99));
    assert_eq!(reader.seek(SeekTarget::End(0)), Ok(100));
    assert_eq!(reader.seek(SeekTarget::End(1)), Err(InvalidSeek));
    assert_eq!(reader.seek(SeekTarget::Start(101)), Err(InvalidSeek));
    assert_eq!(reader.seek(SeekTarget::Start(u64::MAX)), Err(InvalidSeek));
    assert_eq!(reader.seek(SeekTarget::Current(-101)), Err(InvalidSeek));
    assert_eq!(reader.position, 100);
}

#[test]
fn seeks_and_chunks_beyond_the_range_of_positions_are_recognised() {
    let mut reader = reader(100);
    assert!(reader.can_seek(SeekTarget::Start(u64::MAX)));
    assert!(reader.can_seek(SeekTarget::End(i64::MIN)));
    assert!(!reader.can_seek(SeekTarget::End(i64::MAX)));
    assert!(reader.can_seek(SeekTarget::Current(i64::MAX)));
    reader.position = 1;
    assert!(!reader.can_seek(SeekTarget::Current(i64::MAX)));
    assert!(is_fetchable(0));
    assert!(is_fetchable((1 << 44) - 2));
    assert!(!is_fetchable((1 << 44) - 1));
    assert!(!is_fetchable(u64::MAX));
}

#[test]
fn chunks_are_asked_for_by_range() {
    assert_eq!(ChunkFetch::new(0, 5).range, "bytes=0-4");
    assert_eq!(ChunkFetch::new(0, CHUNK_SIZE).range, "bytes=0-1048575");
    assert_eq!(ChunkFetch::new(1, CHUNK_SIZE + 1).range, "bytes=1048576-1048576");
    assert_eq!(ChunkFetch::new(2, 10 * CHUNK_SIZE).range, "bytes=2097152-3145727");
}

#[test]
fn every_chunk_asked_for_is_fetched() {
    let fetches = reader(3 * CHUNK_SIZE).cache_chunks_concurrently(&[2, 0, 2]);
    let laid_out: Vec<(u64, &str)> =
        fetches.iter().map(|fetch| (fetch.chunk_index, fetch.range.as_str())).collect();
    assert_eq!(
        laid_out,
        vec![(2, "bytes=2097152-3145727"), (0, "bytes=0-1048575"), (2, "bytes=2097152-3145727")]
    );
    assert!(reader(0).cache_chunks_concurrently(&[]).is_empty());
}

#[test]
fn fetches_are_tried_three_times() {
    let mut attempts = FetchAttempts::new(7);
    let first = attempts.step(FetchEvent::SendError("refused".to_string()));
    assert!(matches!(first, FetchAction::Retry));
    let second = attempts.step(FetchEvent::Status("503".to_string()));
    assert!(matches!(second, FetchAction::Retry));
    match attempts.step(FetchEvent::SendError("refused".to_string())) {
        FetchAction::Fail(message) => assert_eq!(message, "HTTP Error chunk 7: refused"),
        other => panic!("{:?}", other),
    }
    assert_eq!(attempts.attempts, 3);
}

#[test]
fn each_failure_of_the_third_request_has_its_message() {
    for (event, message) in [
        (FetchEvent::BodyError("eof".to_string()), "Fetch bytes error: eof"),
        (FetchEvent::Status("404 Not Found".to_string()), "HTTP Status 404 Not Found"),
    ] {
        let mut attempts = FetchAttempts { chunk_index: 1, attempts: 2 };
        match attempts.step(event) {
            FetchAction::Fail(text) => assert_eq!(text, message),
            other => panic!("{:?}", other),
        }
    }
}

#[test]
fn a_body_ends_the_fetch() {
    let mut attempts = FetchAttempts::new(0);
    attempts.step(FetchEvent::BodyError("eof".to_string()));
    match attempts.step(FetchEvent::Body(vec![1, 2, 3])) {
        FetchAction::Done(bytes) => assert_eq!(bytes, vec![1, 2, 3]),
        other => panic!("{:?}", other),
    }
}

#[test]
fn the_first_lost_task_is_reported() {
    assert_eq!(prefetch_result(&vec![]), Ok(()));
    assert_eq!(prefetch_result(&vec![None, None]), Ok(()));
    assert_eq!(
        prefetch_result(&vec![None, Some("panic".to_string()), Some("late".to_string())]),
        Err("Task spawn error: panic".to_string())
    );
}
